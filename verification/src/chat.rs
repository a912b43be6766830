//! The tool-augmented conversation loop.
//!
//! A query runs in rounds: the provider streams one response; text deltas
//! go to the caller's sink as they arrive; tool calls carried by any chunk
//! are preserved, the last non-empty list superseding earlier ones. A
//! round that ends with pending tool calls runs each tool in order,
//! appends the results to the conversation, and starts the next round; a
//! round without tool calls ends the query with the accumulated text.
//!
//! The sink and the tool runner carry ghost histories, so a successful
//! query's contract pins what was streamed and which tools ran: exactly
//! the deltas of every round, and exactly the tool calls the non-final
//! rounds decided, in issued order.

use vstd::prelude::*;
use vstd::string::StringExecFns;

use crate::plugin::PluginError;
use crate::plugin::PluginOutput;
use crate::plugin::PluginRegistry;
use crate::provider::ChatRequest;
use crate::provider::ChatResponse;
use crate::provider::ChunkSink;
use crate::provider::Message;
use crate::provider::Provider;
use crate::provider::ProviderError;
use crate::provider::Tool;
use crate::provider::ToolCall;
use crate::provider::ToolCallFunction;
use crate::provider::ToolFunction;
use crate::rag::RagEngine;

verus! {

/// Why a query failed.
#[derive(Debug, Clone, PartialEq, Eq)]
pub enum ChatError {
    /// The provider call failed.
    Provider(ProviderError),
    /// A requested tool failed or does not exist; names the tool.
    Tool { name: String, message: String },
    /// The round limit was reached before the model settled on an answer.
    RoundLimit,
}

/// Runs a named tool with serialized arguments. The registry decides
/// which names exist; the runner only performs the work. The ghost call
/// history records every run, in order, whether it succeeded or not.
pub trait ToolRunner {
    /// The (name, arguments) of every run performed so far, in order.
    /// Implementations outside the verified crate may leave the default,
    /// which stands in for an unobserved call record.
    open spec fn calls(&self) -> Seq<(Seq<char>, Seq<char>)> {
        Seq::empty()
    }

    fn run(&mut self, name: &str, arguments: &str) -> (r: Result<PluginOutput, PluginError>)
        ensures
            final(self).calls() == old(self).calls().push((name@, arguments@)),
    ;
}

/// What one streamed round accumulates: the concatenated text and the
/// pending tool calls.
#[derive(Debug)]
pub struct StreamState {
    pub accumulated: String,
    pub tool_calls: Option<Vec<ToolCall>>,
}

/// The text a chunk emits to the sink: its incremental content, except on
/// the final chunk or when empty.
pub open spec fn spec_chunk_delta(ch: ChatResponse) -> Seq<char> {
    if !ch.done && ch.content@.len() > 0 {
        ch.content@
    } else {
        Seq::empty()
    }
}

/// The concatenation of every emitted delta.
pub open spec fn spec_deltas(chunks: Seq<ChatResponse>) -> Seq<char>
    decreases chunks.len(),
{
    if chunks.len() == 0 {
        Seq::empty()
    } else {
        spec_deltas(chunks.drop_last()) + spec_chunk_delta(chunks.last())
    }
}

/// The emitted deltas of a round as a list: one entry per chunk that
/// carries text before the stream ends.
pub open spec fn spec_delta_list(chunks: Seq<ChatResponse>) -> Seq<Seq<char>>
    decreases chunks.len(),
{
    if chunks.len() == 0 {
        Seq::empty()
    } else {
        spec_delta_list(chunks.drop_last()) + (if spec_chunk_delta(chunks.last()).len() > 0 {
            seq![spec_chunk_delta(chunks.last())]
        } else {
            Seq::empty()
        })
    }
}

/// A list of texts, concatenated.
pub open spec fn spec_concat_texts(l: Seq<Seq<char>>) -> Seq<char>
    decreases l.len(),
{
    if l.len() == 0 {
        Seq::empty()
    } else {
        spec_concat_texts(l.drop_last()) + l.last()
    }
}

/// Concatenating the emitted delta list yields the concatenated deltas.
pub proof fn lemma_delta_list_concat(chunks: Seq<ChatResponse>)
    ensures
        spec_concat_texts(spec_delta_list(chunks)) == spec_deltas(chunks),
    decreases chunks.len(),
{
    if chunks.len() > 0 {
        lemma_delta_list_concat(chunks.drop_last());
        let d = spec_chunk_delta(chunks.last());
        if d.len() > 0 {
            assert(spec_delta_list(chunks).drop_last() =~= spec_delta_list(chunks.drop_last()));
            assert(spec_delta_list(chunks).last() == d);
        } else {
            assert(spec_delta_list(chunks) =~= spec_delta_list(chunks.drop_last()));
            assert(spec_deltas(chunks) =~= spec_deltas(chunks.drop_last()));
        }
    }
}

/// The concatenation of every chunk's incremental content.
pub open spec fn spec_accumulated(chunks: Seq<ChatResponse>) -> Seq<char>
    decreases chunks.len(),
{
    if chunks.len() == 0 {
        Seq::empty()
    } else {
        spec_accumulated(chunks.drop_last()) + chunks.last().content@
    }
}

/// The pending tool calls after a round: the last list any chunk carried.
pub open spec fn spec_pending_tool_calls(chunks: Seq<ChatResponse>) -> Option<Vec<ToolCall>>
    decreases chunks.len(),
{
    if chunks.len() == 0 {
        None
    } else {
        match chunks.last().message.tool_calls {
            Some(tc) => Some(tc),
            None => spec_pending_tool_calls(chunks.drop_last()),
        }
    }
}

/// The (name, arguments) pairs a round asks to run: its pending tool
/// calls in issued order, none when the round carries none.
pub open spec fn spec_round_calls(chunks: Seq<ChatResponse>) -> Seq<(Seq<char>, Seq<char>)> {
    match spec_pending_tool_calls(chunks) {
        Some(tc) => tc@.map_values(|c: ToolCall| (c.function.name@, c.function.arguments@)),
        None => Seq::empty(),
    }
}

/// Streaming monotonicity: when the final chunk carries no new text (as
/// the provider contract asks), the concatenation of everything handed to
/// the sink equals the round's accumulated text — what a query without
/// tool calls returns.
pub proof fn lemma_streaming_monotonic(chunks: Seq<ChatResponse>)
    requires
        forall|k: int|
            0 <= k < chunks.len() && (#[trigger] chunks[k]).done ==> chunks[k].content@.len() == 0,
    ensures
        spec_deltas(chunks) == spec_accumulated(chunks),
    decreases chunks.len(),
{
    if chunks.len() > 0 {
        assert forall|k: int|
            0 <= k < chunks.drop_last().len() && (#[trigger] chunks.drop_last()[k]).done implies
            chunks.drop_last()[k].content@.len() == 0 by {
            assert(chunks.drop_last()[k] == chunks[k]);
        }
        lemma_streaming_monotonic(chunks.drop_last());
        assert(chunks[chunks.len() - 1] == chunks.last());
        assert(spec_chunk_delta(chunks.last()) == chunks.last().content@);
    }
}

/// Fold one round's chunks: emit each delta to the sink in order, and
/// return exactly the accumulated text and the pending tool calls; the
/// sink's history grows by exactly the round's delta list.
pub fn fold_round<S: ChunkSink>(chunks: Vec<ChatResponse>, sink: &mut S) -> (r: StreamState)
    ensures
        r.accumulated@ == spec_accumulated(chunks@),
        r.tool_calls == spec_pending_tool_calls(chunks@),
        final(sink).history() == old(sink).history() + spec_delta_list(chunks@),
{
    let ghost all = chunks@;
    let ghost sink0 = sink.history();
    let mut rest = chunks;
    let n = rest.len();
    let mut state = StreamState { accumulated: String::new(), tool_calls: None };
    let mut t: usize = 0;
    while rest.len() > 0
        invariant
            all.len() == n,
            0 <= t <= all.len(),
            rest@ == all.skip(t as int),
            state.accumulated@ == spec_accumulated(all.take(t as int)),
            state.tool_calls == spec_pending_tool_calls(all.take(t as int)),
            sink.history() == sink0 + spec_delta_list(all.take(t as int)),
        decreases rest@.len(),
    {
        assert(t < all.len()) by {
            assert(all.skip(t as int).len() == all.len() - t);
        }
        let ch = rest.remove(0);
        assert(ch == all[t as int]) by {
            assert(all.skip(t as int)[0] == all[t as int]);
        }
        proof {
            assert(rest@ =~= all.skip(t + 1));
            assert(all.take(t + 1).drop_last() =~= all.take(t as int));
            assert(all.take(t + 1).last() == all[t as int]);
        }
        if !ch.done && !ch.content.as_str().is_empty() {
            sink.on_chunk(ch.content.as_str());
            proof {
                assert(sink.history() =~= sink0 + spec_delta_list(all.take(t + 1)));
            }
        } else {
            proof {
                assert(sink.history() =~= sink0 + spec_delta_list(all.take(t + 1)));
            }
        }
        state.accumulated.append(ch.content.as_str());
        if ch.message.tool_calls.is_some() {
            state.tool_calls = ch.message.tool_calls;
        }
        t = t + 1;
    }
    proof {
        assert(all.take(t as int) =~= all);
    }
    state
}

/// What a finished round decides.
#[derive(Debug)]
pub enum RoundOutcome {
    /// No pending tool calls: the query is done with this text.
    Final(String),
    /// Pending tool calls: run exactly these, in this order, then start
    /// the next round with the same accumulated text.
    RunTools(String, Vec<ToolCall>),
}

/// Tool-call atomicity, decided: a round with no (or an empty) pending
/// tool-call list ends the query and asks for no tool at all; a round
/// with pending calls asks for exactly those calls in the order the model
/// issued them.
pub fn round_outcome(state: StreamState) -> (r: RoundOutcome)
    ensures
        match state.tool_calls {
            Some(tc) => if tc@.len() > 0 {
                r matches RoundOutcome::RunTools(acc, calls) && acc@ == state.accumulated@ && calls
                    == tc
            } else {
                r matches RoundOutcome::Final(acc) && acc@ == state.accumulated@
            },
            None => r matches RoundOutcome::Final(acc) && acc@ == state.accumulated@,
        },
{
    match state.tool_calls {
        Some(tc) => {
            if tc.len() > 0 {
                RoundOutcome::RunTools(state.accumulated, tc)
            } else {
                RoundOutcome::Final(state.accumulated)
            }
        },
        None => RoundOutcome::Final(state.accumulated),
    }
}

/// An exact copy of a tool-call list.
fn duplicate_tool_calls(calls: &Vec<ToolCall>) -> (r: Vec<ToolCall>)
    ensures
        r@.len() == calls@.len(),
        forall|k: int|
            0 <= k < calls@.len() ==> (#[trigger] r@[k]).function.name@
                == calls@[k].function.name@ && r@[k].function.arguments@
                == calls@[k].function.arguments@,
{
    let n = calls.len();
    let mut out: Vec<ToolCall> = Vec::new();
    let mut i: usize = 0;
    while i < n
        invariant
            n == calls@.len(),
            0 <= i <= n,
            out@.len() == i,
            forall|k: int|
                0 <= k < i ==> (#[trigger] out@[k]).function.name@ == calls@[k].function.name@
                    && out@[k].function.arguments@ == calls@[k].function.arguments@,
        decreases n - i,
    {
        let c = &calls[i];
        out.push(
            ToolCall {
                function: ToolCallFunction {
                    name: c.function.name.clone(),
                    arguments: c.function.arguments.clone(),
                },
            },
        );
        i = i + 1;
    }
    out
}

/// A sink that discards every delta, keeping only the ghost history: for
/// callers that want only the final text.
pub struct DiscardSink {
    pub history: Ghost<Seq<Seq<char>>>,
}

impl DiscardSink {
    pub fn new() -> (r: DiscardSink)
        ensures
            r.history() == Seq::<Seq<char>>::empty(),
    {
        DiscardSink { history: Ghost(Seq::empty()) }
    }
}

impl ChunkSink for DiscardSink {
    open spec fn history(&self) -> Seq<Seq<char>> {
        self.history@
    }

    fn on_chunk(&mut self, chunk: &str)
        ensures
            final(self).history() == old(self).history().push(chunk@),
    {
        proof {
            self.history@ = self.history@.push(chunk@);
        }
    }
}

/// The rounds a conversation took: every round but the last asked for
/// tools, the last asked for none, and its accumulated text is the
/// query's result.
pub open spec fn spec_chat_trace(rounds: Seq<Seq<ChatResponse>>, result: Seq<char>) -> bool {
    &&& rounds.len() >= 1
    &&& result == spec_accumulated(rounds.last())
    &&& (forall|i: int|
        0 <= i < rounds.len() - 1 ==> spec_round_calls(#[trigger] rounds[i]).len() > 0)
    &&& spec_round_calls(rounds.last()).len() == 0
}

/// The tool calls of all the rounds, concatenated in round order.
pub open spec fn spec_all_calls(rounds: Seq<Seq<ChatResponse>>) -> Seq<(Seq<char>, Seq<char>)>
    decreases rounds.len(),
{
    if rounds.len() == 0 {
        Seq::empty()
    } else {
        spec_all_calls(rounds.drop_last()) + spec_round_calls(rounds.last())
    }
}

/// The streamed delta lists of all the rounds, concatenated in round
/// order.
pub open spec fn spec_all_delta_lists(rounds: Seq<Seq<ChatResponse>>) -> Seq<Seq<char>>
    decreases rounds.len(),
{
    if rounds.len() == 0 {
        Seq::empty()
    } else {
        spec_all_delta_lists(rounds.drop_last()) + spec_delta_list(rounds.last())
    }
}

/// What a successful query did, witnessed by its rounds: the result is
/// the final round's accumulated text; the runner ran exactly the tool
/// calls of the non-final rounds, in issued order; the sink received
/// exactly every round's deltas, in order.
pub open spec fn spec_query_trace(
    result: Seq<char>,
    sink_before: Seq<Seq<char>>,
    sink_after: Seq<Seq<char>>,
    calls_before: Seq<(Seq<char>, Seq<char>)>,
    calls_after: Seq<(Seq<char>, Seq<char>)>,
) -> bool {
    exists|rounds: Seq<Seq<ChatResponse>>|
        #![trigger spec_chat_trace(rounds, result)]
        {
            &&& spec_chat_trace(rounds, result)
            &&& calls_after == calls_before + spec_all_calls(rounds)
            &&& sink_after == sink_before + spec_all_delta_lists(rounds)
        }
}

/// A query that streamed to a private, discarded sink still ran exactly
/// the traced tool calls.
pub open spec fn spec_query_calls(
    result: Seq<char>,
    calls_before: Seq<(Seq<char>, Seq<char>)>,
    calls_after: Seq<(Seq<char>, Seq<char>)>,
) -> bool {
    exists|rounds: Seq<Seq<ChatResponse>>|
        #![trigger spec_chat_trace(rounds, result)]
        {
            &&& spec_chat_trace(rounds, result)
            &&& calls_after == calls_before + spec_all_calls(rounds)
        }
}

/// What a tool failure left behind: the runner performed some prefix of
/// work, and either the named tool is not registered at all (the registry
/// refused it before any run), or the very last run performed was the
/// named tool's.
pub open spec fn spec_tool_failure(
    name: Seq<char>,
    registry_plugins: Seq<crate::plugin::PluginSpec>,
    calls_before: Seq<(Seq<char>, Seq<char>)>,
    calls_after: Seq<(Seq<char>, Seq<char>)>,
) -> bool {
    exists|done: Seq<(Seq<char>, Seq<char>)>|
        #![trigger calls_before + done]
        {
            &&& calls_after == calls_before + done
            &&& (crate::plugin::spec_plugin_find(registry_plugins, name) == -1 || (done.len() > 0
                && done.last().0 == name))
        }
}

/// A full trace witnesses the calls-only trace.
pub proof fn lemma_trace_calls(
    result: Seq<char>,
    sink_before: Seq<Seq<char>>,
    sink_after: Seq<Seq<char>>,
    calls_before: Seq<(Seq<char>, Seq<char>)>,
    calls_after: Seq<(Seq<char>, Seq<char>)>,
)
    requires
        spec_query_trace(result, sink_before, sink_after, calls_before, calls_after),
    ensures
        spec_query_calls(result, calls_before, calls_after),
{
    let rounds = choose|rounds: Seq<Seq<ChatResponse>>|
        #![trigger spec_chat_trace(rounds, result)]
        {
            &&& spec_chat_trace(rounds, result)
            &&& calls_after == calls_before + spec_all_calls(rounds)
            &&& sink_after == sink_before + spec_all_delta_lists(rounds)
        };
    assert(spec_chat_trace(rounds, result));
}

/// Streaming monotonicity end to end: for a conversation of one round
/// whose final chunk carries no new text, the concatenation of everything
/// handed to the sink equals the query's returned text.
pub proof fn lemma_single_round_streaming(rounds: Seq<Seq<ChatResponse>>, result: Seq<char>)
    requires
        spec_chat_trace(rounds, result),
        rounds.len() == 1,
        forall|k: int|
            0 <= k < rounds[0].len() && (#[trigger] rounds[0][k]).done ==> rounds[0][k].content@.len()
                == 0,
    ensures
        spec_concat_texts(spec_all_delta_lists(rounds)) == result,
{
    assert(rounds.drop_last() =~= Seq::<Seq<ChatResponse>>::empty());
    assert(rounds.last() == rounds[0]);
    assert(spec_all_delta_lists(Seq::<Seq<ChatResponse>>::empty()) =~= Seq::<Seq<char>>::empty());
    assert(spec_all_delta_lists(rounds) =~= spec_all_delta_lists(rounds.drop_last())
        + spec_delta_list(rounds.last()));
    assert(spec_all_delta_lists(rounds) =~= spec_delta_list(rounds[0]));
    lemma_delta_list_concat(rounds[0]);
    lemma_streaming_monotonic(rounds[0]);
}

/// Manages multi-turn conversations: retrieval-augmented prompts, the
/// streamed provider round, and tool execution between rounds.
#[derive(Debug)]
pub struct ChatManager<P, T> {
    pub model: String,
    /// Sampling temperature in thousandths.
    pub temperature: u32,
    pub provider: P,
    pub runner: T,
    pub registry: PluginRegistry,
    pub rag: RagEngine,
}

impl<P: Provider, T: ToolRunner> ChatManager<P, T> {
    pub open spec fn wf(&self) -> bool {
        &&& self.registry.wf()
        &&& self.rag.wf()
    }

    /// Assemble a manager from its parts.
    pub fn new(
        model: String,
        temperature: u32,
        provider: P,
        runner: T,
        registry: PluginRegistry,
        rag: RagEngine,
    ) -> (r: ChatManager<P, T>)
        requires
            registry.wf(),
            rag.wf(),
        ensures
            r.wf(),
            r.model@ == model@,
            r.temperature == temperature,
            r.registry == registry,
            r.rag == rag,
            r.runner == runner,
    {
        ChatManager { model, temperature, provider, runner, registry, rag }
    }

    /// How many documents the knowledge base holds.
    pub fn knowledge_base_count(&self) -> (r: usize)
        ensures
            r == self.rag.store.docs@.len(),
    {
        self.rag.count()
    }

    /// The registered plugins as tool definitions for the provider, in
    /// registration order.
    pub fn build_tools(&self) -> (r: Vec<Tool>)
        ensures
            r@.len() == self.registry.plugins@.len(),
            forall|k: int|
                0 <= k < r@.len() ==> {
                    &&& (#[trigger] r@[k]).tool_type@ == "function"@
                    &&& r@[k].function.name@ == self.registry.plugins@[k].name@
                    &&& r@[k].function.description@ == self.registry.plugins@[k].description@
                    &&& r@[k].function.parameters@
                        == self.registry.plugins@[k].parameter_schema@
                },
    {
        let n = self.registry.get_count();
        let mut out: Vec<Tool> = Vec::new();
        let mut i: usize = 0;
        while i < n
            invariant
                n == self.registry.plugins@.len(),
                0 <= i <= n,
                out@.len() == i,
                forall|k: int|
                    0 <= k < i ==> {
                        &&& (#[trigger] out@[k]).tool_type@ == "function"@
                        &&& out@[k].function.name@ == self.registry.plugins@[k].name@
                        &&& out@[k].function.description@
                            == self.registry.plugins@[k].description@
                        &&& out@[k].function.parameters@
                            == self.registry.plugins@[k].parameter_schema@
                    },
            decreases n - i,
        {
            let p = &self.registry.all()[i];
            out.push(
                Tool {
                    tool_type: String::from_str("function"),
                    function: ToolFunction {
                        name: p.name.clone(),
                        description: p.description.clone(),
                        parameters: p.parameter_schema.clone(),
                    },
                },
            );
            i = i + 1;
        }
        out
    }

    /// Send a query and return the final response, discarding the
    /// streamed deltas; the runner still ran exactly the traced calls.
    pub fn query(&mut self, user_message: &str) -> (r: Result<String, ChatError>)
        requires
            old(self).wf(),
        ensures
            final(self).wf(),
            final(self).model@ == old(self).model@,
            final(self).temperature == old(self).temperature,
            final(self).registry == old(self).registry,
            final(self).rag == old(self).rag,
            r matches Ok(s) ==> spec_query_calls(
                s@,
                old(self).runner.calls(),
                final(self).runner.calls(),
            ),
            r matches Err(e) ==> (e matches ChatError::Tool { name, message }
                ==> spec_tool_failure(
                name@,
                old(self).registry.plugins@,
                old(self).runner.calls(),
                final(self).runner.calls(),
            )),
    {
        let mut sink = DiscardSink::new();
        let ghost sink0 = sink.history();
        let r = self.query_stream(user_message, &mut sink);
        proof {
            if r is Ok {
                lemma_trace_calls(
                    r->Ok_0@,
                    sink0,
                    sink.history(),
                    old(self).runner.calls(),
                    self.runner.calls(),
                );
            }
        }
        r
    }

    /// Send a query and stream the response text through the sink.
    ///
    /// Rounds follow the provider's stream: retrieval context (when the
    /// knowledge base is non-empty) is prepended to the user message;
    /// each round streams deltas to the sink; pending tool calls run
    /// strictly between rounds, in issued order, their results appended
    /// as tool-role messages; the first round without pending calls
    /// returns its accumulated text. On success the trace pins the
    /// result, the sink's deltas and the runner's calls to the rounds. A
    /// tool that fails or is not registered aborts the query with an
    /// error naming it. The manager itself mutates none of its shared
    /// parts: registry, knowledge base, model and temperature are
    /// untouched.
    pub fn query_stream<S: ChunkSink>(&mut self, user_message: &str, sink: &mut S) -> (r: Result<
        String,
        ChatError,
    >)
        requires
            old(self).wf(),
        ensures
            final(self).wf(),
            final(self).model@ == old(self).model@,
            final(self).temperature == old(self).temperature,
            final(self).registry == old(self).registry,
            final(self).rag == old(self).rag,
            r matches Ok(s) ==> spec_query_trace(
                s@,
                old(sink).history(),
                final(sink).history(),
                old(self).runner.calls(),
                final(self).runner.calls(),
            ),
            r matches Err(e) ==> (e matches ChatError::Tool { name, message }
                ==> spec_tool_failure(
                name@,
                old(self).registry.plugins@,
                old(self).runner.calls(),
                final(self).runner.calls(),
            )),
    {
        let ghost sink0 = sink.history();
        let ghost calls0 = self.runner.calls();
        let context = if self.rag.count() > 0 {
            match self.rag.retrieve_context(&mut self.provider, user_message) {
                Ok(c) => c,
                Err(_) => String::new(),
            }
        } else {
            String::new()
        };
        let mut enhanced = context;
        enhanced.append(user_message);
        let mut messages: Vec<Message> = Vec::new();
        messages.push(Message::user(None, enhanced));
        let tools = self.build_tools();
        let ghost mut rounds: Seq<Seq<ChatResponse>> = Seq::empty();
        // The manager itself does not limit the conversation; this bound
        // only makes termination provable and is never reached in
        // practice.
        let mut rounds_left: u64 = u64::MAX;
        while rounds_left > 0
            invariant
                old(self).wf(),
                self.wf(),
                self.model@ == old(self).model@,
                self.temperature == old(self).temperature,
                self.registry == old(self).registry,
                self.rag == old(self).rag,
                sink.history() == sink0 + spec_all_delta_lists(rounds),
                self.runner.calls() == calls0 + spec_all_calls(rounds),
                sink0 == old(sink).history(),
                calls0 == old(self).runner.calls(),
                forall|i: int|
                    0 <= i < rounds.len() ==> spec_round_calls(#[trigger] rounds[i]).len() > 0,
            decreases rounds_left,
        {
            let mut request = ChatRequest::new(self.model.clone(), messages.clone())
                .with_temperature(self.temperature);
            if tools.len() > 0 {
                request.tools = Some(tools.clone());
            }
            let chunks = match self.provider.chat(&request) {
                Ok(c) => c,
                Err(e) => {
                    return Err(ChatError::Provider(e));
                },
            };
            let ghost round_chunks = chunks@;
            let state = fold_round(chunks, sink);
            proof {
                assert(state.accumulated@ == spec_accumulated(round_chunks));
                assert(state.tool_calls == spec_pending_tool_calls(round_chunks));
            }
            match round_outcome(state) {
                RoundOutcome::Final(text) => {
                    proof {
                        let done = rounds.push(round_chunks);
                        assert(done.drop_last() =~= rounds);
                        assert(done.last() == round_chunks);
                        assert(spec_round_calls(round_chunks).len() == 0);
                        assert(spec_chat_trace(done, text@));
                        assert(spec_all_calls(done) =~= spec_all_calls(rounds));
                        assert(self.runner.calls() =~= calls0 + spec_all_calls(done));
                        assert(spec_all_delta_lists(done) =~= spec_all_delta_lists(rounds)
                            + spec_delta_list(round_chunks));
                        assert(sink.history() =~= sink0 + spec_all_delta_lists(done));
                    }
                    return Ok(text);
                },
                RoundOutcome::RunTools(text, calls) => {
                    let ghost tc_view = calls@;
                    proof {
                        assert(spec_round_calls(round_chunks) == tc_view.map_values(
                            |c: ToolCall| (c.function.name@, c.function.arguments@),
                        ));
                    }
                    let recorded = duplicate_tool_calls(&calls);
                    messages.push(
                        Message {
                            role: String::from_str("assistant"),
                            context: None,
                            content: text,
                            images: None,
                            tool_calls: Some(recorded),
                        },
                    );
                    let ghost calls_at_round = self.runner.calls();
                    let mut pending = calls;
                    let mut j: usize = 0;
                    let nt = pending.len();
                    while pending.len() > 0
                        invariant
                            old(self).wf(),
                            self.wf(),
                            self.model@ == old(self).model@,
                            self.temperature == old(self).temperature,
                            self.registry == old(self).registry,
                            self.rag == old(self).rag,
                            tc_view.len() == nt,
                            0 <= j <= nt,
                            pending@ == tc_view.skip(j as int),
                            calls0 == old(self).runner.calls(),
                            calls_at_round == calls0 + spec_all_calls(rounds),
                            self.runner.calls() == calls_at_round + tc_view.take(
                                j as int,
                            ).map_values(|c: ToolCall| (c.function.name@, c.function.arguments@)),
                        decreases pending@.len(),
                    {
                        assert(j < nt) by {
                            assert(tc_view.skip(j as int).len() == tc_view.len() - j);
                        }
                        let call = pending.remove(0);
                        assert(call == tc_view[j as int]) by {
                            assert(tc_view.skip(j as int)[0] == tc_view[j as int]);
                        }
                        proof {
                            assert(pending@ =~= tc_view.skip(j + 1));
                        }
                        if self.registry.get(call.function.name.as_str()).is_none() {
                            proof {
                                let done = spec_all_calls(rounds) + tc_view.take(
                                    j as int,
                                ).map_values(
                                    |c: ToolCall| (c.function.name@, c.function.arguments@),
                                );
                                assert(self.runner.calls() =~= calls0 + done);
                            }
                            return Err(
                                ChatError::Tool {
                                    name: call.function.name,
                                    message: String::from_str("unknown tool"),
                                },
                            );
                        }
                        let run_result = self.runner.run(
                            call.function.name.as_str(),
                            call.function.arguments.as_str(),
                        );
                        proof {
                            assert(tc_view.take(j + 1).drop_last() =~= tc_view.take(j as int));
                            assert(tc_view.take(j + 1).last() == tc_view[j as int]);
                            assert(tc_view.take(j + 1).map_values(
                                |c: ToolCall| (c.function.name@, c.function.arguments@),
                            ) =~= tc_view.take(j as int).map_values(
                                |c: ToolCall| (c.function.name@, c.function.arguments@),
                            ).push(
                                (
                                    tc_view[j as int].function.name@,
                                    tc_view[j as int].function.arguments@,
                                ),
                            ));
                        }
                        match run_result {
                            Ok(output) => {
                                messages.push(Message::tool(None, output.content));
                            },
                            Err(_) => {
                                proof {
                                    let done = spec_all_calls(rounds) + tc_view.take(
                                        j + 1,
                                    ).map_values(
                                        |c: ToolCall| (c.function.name@, c.function.arguments@),
                                    );
                                    assert(self.runner.calls() =~= calls0 + done);
                                    assert(done.last() == (
                                        tc_view[j as int].function.name@,
                                        tc_view[j as int].function.arguments@,
                                    ));
                                }
                                return Err(
                                    ChatError::Tool {
                                        name: call.function.name,
                                        message: String::from_str("tool execution failed"),
                                    },
                                );
                            },
                        }
                        j = j + 1;
                    }
                    proof {
                        assert(tc_view.skip(j as int).len() == 0);
                        assert(tc_view.take(j as int) =~= tc_view);
                        let done = rounds.push(round_chunks);
                        assert(done.drop_last() =~= rounds);
                        assert(done.last() == round_chunks);
                        assert(spec_all_calls(done) =~= spec_all_calls(rounds)
                            + spec_round_calls(round_chunks));
                        assert(self.runner.calls() =~= calls0 + spec_all_calls(done));
                        assert(spec_all_delta_lists(done) =~= spec_all_delta_lists(rounds)
                            + spec_delta_list(round_chunks));
                        assert(sink.history() =~= sink0 + spec_all_delta_lists(done));
                        assert(spec_round_calls(round_chunks).len() == tc_view.len());
                        rounds = done;
                    }
                },
            }
            rounds_left = rounds_left - 1;
        }
        Err(ChatError::RoundLimit)
    }
}

} // verus!
