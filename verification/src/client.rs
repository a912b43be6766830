//! The client side of the local IPC protocol: building requests, folding
//! the streamed reply records back into one response, and stripping the
//! model's think-tag passages. The socket I/O itself stays outside.

use vstd::prelude::*;
use vstd::string::StringExecFns;
use vstd::string::StringSliceAdditionalSpecFns;
use vstd::utf8::encode_utf8;
use vstd::utf8::encode_utf8_valid_utf8;
use vstd::utf8::is_char_boundary_iff_not_is_continuation_byte;
use vstd::utf8::is_char_boundary_start_end_of_seq;

use crate::server::ChunkType;
use crate::server::HistoryMessage;
use crate::server::Request;
use crate::server::RequestType;
use crate::server::StreamChunk;
use crate::strutil;

verus! {

/// A conversation history kept by the client and sent with each request.
#[derive(Debug, Default)]
pub struct ConversationHistory {
    pub messages: Vec<HistoryMessage>,
}

impl ConversationHistory {
    pub fn new() -> (r: ConversationHistory)
        ensures
            r.messages@.len() == 0,
    {
        ConversationHistory { messages: Vec::new() }
    }

    pub fn add_user_message(&mut self, content: String)
        ensures
            final(self).messages@.len() == old(self).messages@.len() + 1,
            final(self).messages@.last().role@ == "user"@,
            final(self).messages@.last().content@ == content@,
            final(self).messages@.take(old(self).messages@.len() as int) == old(self).messages@,
    {
        let ghost pre = self.messages@;
        self.messages.push(HistoryMessage { role: String::from_str("user"), content });
        proof {
            assert(self.messages@.take(pre.len() as int) =~= pre);
        }
    }

    pub fn add_assistant_message(&mut self, content: String)
        ensures
            final(self).messages@.len() == old(self).messages@.len() + 1,
            final(self).messages@.last().role@ == "assistant"@,
            final(self).messages@.last().content@ == content@,
            final(self).messages@.take(old(self).messages@.len() as int) == old(self).messages@,
    {
        let ghost pre = self.messages@;
        self.messages.push(HistoryMessage { role: String::from_str("assistant"), content });
        proof {
            assert(self.messages@.take(pre.len() as int) =~= pre);
        }
    }

    pub fn get_messages(&self) -> (r: &Vec<HistoryMessage>)
        ensures
            r@ == self.messages@,
    {
        &self.messages
    }

    pub fn clear(&mut self)
        ensures
            final(self).messages@.len() == 0,
    {
        self.messages.clear();
    }
}

/// What folding a reply stream yields: partial records accumulate; a
/// `done` record with text replaces the accumulation, otherwise the
/// accumulation stands; an `error` record fails with its message, or
/// `Unknown error` when it carries none. Records after `done` or `error`
/// are not consulted.
pub open spec fn spec_fold_chunks(chunks: Seq<StreamChunk>, acc: Seq<char>) -> Result<
    Seq<char>,
    Seq<char>,
>
    decreases chunks.len(),
{
    if chunks.len() == 0 {
        Ok(acc)
    } else {
        let c = chunks[0];
        match c.chunk_type {
            ChunkType::Chunk => spec_fold_chunks(chunks.drop_first(), acc + c.content@),
            ChunkType::Done => Ok(
                if c.content@.len() > 0 {
                    c.content@
                } else {
                    acc
                },
            ),
            ChunkType::Error => Err(
                match c.error {
                    Some(e) => e@,
                    None => "Unknown error"@,
                },
            ),
        }
    }
}

/// Fold a streamed reply into the final response text, exactly as
/// `spec_fold_chunks` states.
pub fn fold_stream_chunks(chunks: Vec<StreamChunk>) -> (r: Result<String, String>)
    ensures
        (r is Ok) == (spec_fold_chunks(chunks@, Seq::<char>::empty()) is Ok),
        r matches Ok(s) ==> spec_fold_chunks(chunks@, Seq::<char>::empty())->Ok_0 == s@,
        r matches Err(e) ==> spec_fold_chunks(chunks@, Seq::<char>::empty())->Err_0 == e@,
{
    let ghost all = chunks@;
    let mut rest = chunks;
    let mut acc = String::new();
    proof {
        assert(all == rest@);
    }
    while rest.len() > 0
        invariant
            all == chunks@,
            spec_fold_chunks(all, Seq::<char>::empty()) == spec_fold_chunks(rest@, acc@),
        decreases rest@.len(),
    {
        let ghost old_rest = rest@;
        let ghost pre_acc = acc@;
        let c = rest.remove(0);
        proof {
            assert(rest@ =~= old_rest.drop_first());
            assert(old_rest[0] == c);
        }
        match c.chunk_type {
            ChunkType::Chunk => {
                proof {
                    assert(spec_fold_chunks(old_rest, pre_acc) == spec_fold_chunks(
                        old_rest.drop_first(),
                        pre_acc + c.content@,
                    ));
                }
                acc.append(c.content.as_str());
            },
            ChunkType::Done => {
                proof {
                    assert(spec_fold_chunks(old_rest, pre_acc) == Ok::<Seq<char>, Seq<char>>(
                        if c.content@.len() > 0 {
                            c.content@
                        } else {
                            pre_acc
                        },
                    ));
                }
                if !c.content.as_str().is_empty() {
                    return Ok(c.content);
                } else {
                    return Ok(acc);
                }
            },
            ChunkType::Error => {
                proof {
                    assert(spec_fold_chunks(old_rest, pre_acc) == Err::<Seq<char>, Seq<char>>(
                        match c.error {
                            Some(e) => e@,
                            None => "Unknown error"@,
                        },
                    ));
                }
                return Err(
                    match c.error {
                        Some(e) => e,
                        None => String::from_str("Unknown error"),
                    },
                );
            },
        }
    }
    Ok(acc)
}

/// The byte tag that opens a think passage: `<think>`.
pub open spec fn spec_open_tag() -> Seq<u8> {
    seq![0x3cu8, 0x74u8, 0x68u8, 0x69u8, 0x6eu8, 0x6bu8, 0x3eu8]
}

/// The byte tag that closes a think passage: `</think>`.
pub open spec fn spec_close_tag() -> Seq<u8> {
    seq![0x3cu8, 0x2fu8, 0x74u8, 0x68u8, 0x69u8, 0x6eu8, 0x6bu8, 0x3eu8]
}

/// The bytes kept when think tags and the passages between them are
/// removed: an opening tag turns think state on, a closing tag turns it
/// off, and bytes seen in think state are dropped.
pub open spec fn spec_strip_think(b: Seq<u8>, in_think: bool) -> Seq<u8>
    decreases b.len(),
{
    if b.len() == 0 {
        Seq::empty()
    } else if b.len() >= 7 && b.subrange(0, 7) == spec_open_tag() {
        spec_strip_think(b.skip(7), true)
    } else if b.len() >= 8 && b.subrange(0, 8) == spec_close_tag() {
        spec_strip_think(b.skip(8), false)
    } else if in_think {
        spec_strip_think(b.skip(1), in_think)
    } else {
        seq![b[0]] + spec_strip_think(b.skip(1), in_think)
    }
}

/// Bytes before the first `<` pass straight through (or are dropped in
/// think state): no tag can begin among them.
proof fn lemma_strip_run(b: Seq<u8>, j: int, in_think: bool)
    requires
        0 <= j <= b.len(),
        forall|p: int| 0 <= p < j ==> #[trigger] b[p] != 0x3c,
    ensures
        in_think ==> spec_strip_think(b, true) == spec_strip_think(b.skip(j), true),
        !in_think ==> spec_strip_think(b, false) == b.subrange(0, j) + spec_strip_think(
            b.skip(j),
            false,
        ),
    decreases j,
{
    if j > 0 {
        assert(b.len() >= 1);
        assert(b[0] != 0x3c);
        assert(b.len() < 7 || b.subrange(0, 7) != spec_open_tag()) by {
            if b.len() >= 7 {
                assert(spec_open_tag()[0] == 0x3c);
                assert(b.subrange(0, 7)[0] == b[0]);
            }
        }
        assert(b.len() < 8 || b.subrange(0, 8) != spec_close_tag()) by {
            if b.len() >= 8 {
                assert(spec_close_tag()[0] == 0x3c);
                assert(b.subrange(0, 8)[0] == b[0]);
            }
        }
        assert forall|p: int| 0 <= p < j - 1 implies #[trigger] b.skip(1)[p] != 0x3c by {
            assert(b.skip(1)[p] == b[p + 1]);
        }
        lemma_strip_run(b.skip(1), j - 1, in_think);
        assert(b.skip(1).skip(j - 1) =~= b.skip(j));
        if !in_think {
            assert(b.skip(1).subrange(0, j - 1) =~= b.subrange(1, j));
            assert(seq![b[0]] + (b.subrange(1, j) + spec_strip_think(b.skip(j), false))
                =~= b.subrange(0, j) + spec_strip_think(b.skip(j), false));
        }
    } else {
        assert(b.skip(0) =~= b);
        if !in_think {
            assert(b.subrange(0, 0) =~= Seq::<u8>::empty());
        }
    }
}

/// Remove think passages from a text: the bytes of the result are the
/// kept bytes of the input.
fn strip_think(text: &str, in_think: bool) -> (r: String)
    ensures
        encode_utf8(r@) == spec_strip_think(text.spec_bytes(), in_think),
    decreases text.spec_bytes().len(),
{
    proof {
        encode_utf8_valid_utf8(text@);
        is_char_boundary_start_end_of_seq(text.spec_bytes());
        reveal_strlit("<think>");
        reveal_strlit("</think>");
    }
    let ghost tb = text.spec_bytes();
    let b = text.as_bytes();
    let n = b.len();
    // Find the next `<`.
    let mut q: usize = 0;
    while q < n && b[q] != 0x3c
        invariant
            b@ == tb,
            n == tb.len(),
            0 <= q <= n,
            forall|j: int| 0 <= j < q ==> #[trigger] b@[j] != 0x3c,
        decreases n - q,
    {
        q = q + 1;
    }
    proof {
        lemma_strip_run(tb, q as int, in_think);
        if q < n {
            is_char_boundary_iff_not_is_continuation_byte(tb, q as int);
        }
    }
    if q == n {
        // No tag can start: everything left is one plain run.
        let r = if in_think {
            String::new()
        } else {
            String::from_str(text)
        };
        proof {
            assert(tb.skip(n as int).len() == 0);
            assert(spec_strip_think(tb.skip(n as int), in_think) =~= Seq::<u8>::empty());
            if in_think {
                assert(encode_utf8(r@) =~= spec_strip_think(tb, in_think));
            } else {
                assert(tb.subrange(0, n as int) =~= tb);
                assert(encode_utf8(r@) =~= spec_strip_think(tb, in_think));
            }
        }
        return r;
    }
    let (head, tail) = text.split_at(q);
    // Does a tag start here?
    let open_here = n - q >= 7 && b[q] == 0x3c && b[q + 1] == 0x74 && b[q + 2] == 0x68 && b[q + 3]
        == 0x69 && b[q + 4] == 0x6e && b[q + 5] == 0x6b && b[q + 6] == 0x3e;
    let close_here = n - q >= 8 && b[q] == 0x3c && b[q + 1] == 0x2f && b[q + 2] == 0x74 && b[q + 3]
        == 0x68 && b[q + 4] == 0x69 && b[q + 5] == 0x6e && b[q + 6] == 0x6b && b[q + 7] == 0x3e;
    proof {
        assert(spec_open_tag().len() == 7);
        assert(spec_close_tag().len() == 8);
        assert(open_here == (tb.skip(q as int).len() >= 7 && tb.skip(q as int).subrange(0, 7)
            == spec_open_tag())) by {
            if tb.skip(q as int).len() >= 7 {
                let w = tb.skip(q as int).subrange(0, 7);
                assert(w[0] == tb[q as int] && w[1] == tb[q + 1] && w[2] == tb[q + 2] && w[3]
                    == tb[q + 3] && w[4] == tb[q + 4] && w[5] == tb[q + 5] && w[6] == tb[q + 6]);
                if open_here {
                    assert(w =~= spec_open_tag());
                }
            }
        }
        assert(close_here == (tb.skip(q as int).len() >= 8 && tb.skip(q as int).subrange(0, 8)
            == spec_close_tag())) by {
            if tb.skip(q as int).len() >= 8 {
                let w = tb.skip(q as int).subrange(0, 8);
                assert(w[0] == tb[q as int] && w[1] == tb[q + 1] && w[2] == tb[q + 2] && w[3]
                    == tb[q + 3] && w[4] == tb[q + 4] && w[5] == tb[q + 5] && w[6] == tb[q + 6]
                    && w[7] == tb[q + 7]);
                if close_here {
                    assert(w =~= spec_close_tag());
                }
            }
        }
    }
    if open_here {
        proof {
            strutil::lemma_boundary_after_ascii(tb, q + 6);
        }
        let (_, rest) = text.split_at(q + 7);
        let stripped = strip_think(rest, true);
        proof {
            assert(rest.spec_bytes() =~= tb.skip(q as int).skip(7));
            assert(spec_strip_think(tb.skip(q as int), in_think) == spec_strip_think(
                rest.spec_bytes(),
                true,
            ));
        }
        if in_think {
            stripped
        } else {
            let mut out = String::from_str(head);
            out.append(stripped.as_str());
            proof {
                assert(encode_utf8(out@) =~= spec_strip_think(tb, in_think)) by {
                    strutil::lemma_encode_concat(head@, stripped@);
                }
            }
            out
        }
    } else if close_here {
        proof {
            strutil::lemma_boundary_after_ascii(tb, q + 7);
        }
        let (_, rest) = text.split_at(q + 8);
        let stripped = strip_think(rest, false);
        proof {
            assert(rest.spec_bytes() =~= tb.skip(q as int).skip(8));
            assert(spec_strip_think(tb.skip(q as int), in_think) == spec_strip_think(
                rest.spec_bytes(),
                false,
            ));
        }
        if in_think {
            stripped
        } else {
            let mut out = String::from_str(head);
            out.append(stripped.as_str());
            proof {
                assert(encode_utf8(out@) =~= spec_strip_think(tb, in_think)) by {
                    strutil::lemma_encode_concat(head@, stripped@);
                }
            }
            out
        }
    } else {
        // A lone `<`: it is plain text.
        proof {
            strutil::lemma_boundary_after_ascii(tb, q as int);
        }
        let (kept, rest) = text.split_at(q + 1);
        let stripped = strip_think(rest, in_think);
        proof {
            assert(rest.spec_bytes() =~= tb.skip(q as int).skip(1));
            assert(tb.skip(q as int)[0] == 0x3c);
            assert(spec_strip_think(tb.skip(q as int), in_think) == if in_think {
                spec_strip_think(rest.spec_bytes(), in_think)
            } else {
                seq![tb[q as int]] + spec_strip_think(rest.spec_bytes(), in_think)
            });
        }
        if in_think {
            stripped
        } else {
            let mut out = String::from_str(kept);
            out.append(stripped.as_str());
            proof {
                assert(kept.spec_bytes() =~= tb.subrange(0, q + 1));
                assert(encode_utf8(out@) =~= spec_strip_think(tb, in_think)) by {
                    strutil::lemma_encode_concat(kept@, stripped@);
                    assert(tb.subrange(0, q + 1) =~= tb.subrange(0, q as int) + seq![
                        tb[q as int],
                    ]);
                }
            }
            out
        }
    }
}

/// The client of the local IPC server: request building and reply
/// handling; the socket itself stays outside.
#[derive(Debug, Clone, Copy, PartialEq, Eq)]
pub struct AiClient;

impl AiClient {
    /// Remove `<think>`-tagged passages from a reply and trim the rest.
    pub fn strip_think_tags(text: &str) -> (r: String)
        ensures
            encode_utf8(r@) == strutil::spec_trim(spec_strip_think(text.spec_bytes(), false)),
    {
        let stripped = strip_think(text, false);
        let trimmed = strutil::trim_ascii(stripped.as_str());
        trimmed.to_owned()
    }

    /// A chat request.
    pub fn chat(query: &str, pwd: Option<String>, history: Option<Vec<HistoryMessage>>) -> (r:
        Request)
        ensures
            r.request_type == RequestType::Chat,
            r.content@ == query@,
            r.pwd == pwd,
            r.history == history,
    {
        Request { request_type: RequestType::Chat, content: String::from_str(query), pwd, history }
    }

    /// An edit request.
    pub fn edit(request: &str, pwd: Option<String>, history: Option<Vec<HistoryMessage>>) -> (r:
        Request)
        ensures
            r.request_type == RequestType::Edit,
            r.content@ == request@,
            r.pwd == pwd,
            r.history == history,
    {
        Request {
            request_type: RequestType::Edit,
            content: String::from_str(request),
            pwd,
            history,
        }
    }

    /// An add-to-knowledge-base request.
    pub fn add_knowledge(content: &str) -> (r: Request)
        ensures
            r.request_type == RequestType::Add,
            r.content@ == content@,
            r.pwd is None,
            r.history is None,
    {
        Request {
            request_type: RequestType::Add,
            content: String::from_str(content),
            pwd: None,
            history: None,
        }
    }

    /// An index-a-directory request.
    pub fn index_directory(path: &str) -> (r: Request)
        ensures
            r.request_type == RequestType::Index,
            r.content@ == path@,
            r.pwd is None,
            r.history is None,
    {
        Request {
            request_type: RequestType::Index,
            content: String::from_str(path),
            pwd: None,
            history: None,
        }
    }

    /// A statistics request.
    pub fn stats() -> (r: Request)
        ensures
            r.request_type == RequestType::Stats,
            r.content@ == Seq::<char>::empty(),
            r.pwd is None,
            r.history is None,
    {
        Request {
            request_type: RequestType::Stats,
            content: String::new(),
            pwd: None,
            history: None,
        }
    }
}

/// Why the model backend is unavailable.
#[derive(Debug, Clone, PartialEq, Eq)]
pub enum DetectionError {
    /// The backend is not installed or not on the search path.
    NotInstalled,
    /// The backend is installed but not running.
    NotRunning,
    /// The status probe itself failed, with its message.
    CheckFailed(String),
}

/// What a backend probe found.
#[derive(Debug, Clone, PartialEq, Eq)]
pub struct OllamaInfo {
    pub installed: bool,
    pub running: bool,
}

/// Classify the model backend's availability from two probes the caller
/// ran: whether the binary is installed, and whether listing its models
/// succeeded.
pub fn check_ollama_silent(installed: bool, running: Result<bool, String>) -> (r: Result<
    OllamaInfo,
    DetectionError,
>)
    ensures
        match r {
            Ok(info) => installed && running == Ok::<bool, String>(true) && info.installed
                && info.running,
            Err(e) => match e {
                DetectionError::NotInstalled => !installed,
                DetectionError::NotRunning => installed && running == Ok::<bool, String>(false),
                DetectionError::CheckFailed(m) => installed && (running matches Err(msg)
                    && m@ == msg@),
            },
        },
{
    if !installed {
        return Err(DetectionError::NotInstalled);
    }
    match running {
        Ok(true) => Ok(OllamaInfo { installed: true, running: true }),
        Ok(false) => Err(DetectionError::NotRunning),
        Err(e) => Err(DetectionError::CheckFailed(e)),
    }
}

/// The local IPC endpoint: its path. Binding and cleaning the socket up
/// are plain I/O and stay outside.
#[derive(Debug, Clone, PartialEq, Eq)]
pub struct IpcTransport {
    pub socket_path: String,
}

impl IpcTransport {
    pub fn new(socket_path: String) -> (r: IpcTransport)
        ensures
            r.socket_path@ == socket_path@,
    {
        IpcTransport { socket_path }
    }
}

} // verus!
