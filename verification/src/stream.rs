//! The translation of a streamed upstream reply into events for the client.
//!
//! Content blocks are opened when their first content arrives, and at most one
//! block is current at a time: the client's protocol opens a block, sends deltas
//! and closes it.

use crate::chunk::{
    call_deltas_view, CallDeltaView, ChunkView, OpenAIChunk, OpenAIToolCallDelta,
};
use crate::event::{events_view, BlockHeader, EventView, HeaderView, StreamEvent};
use crate::stop_reason::{final_stop_reason, stop_reason_or_default};
use crate::text::opt_view;
use crate::tokens::{estimate_tokens, token_estimate};
use std::collections::HashMap;
use vstd::prelude::*;
use vstd::string::*;

verus! {

/// The kind of a content block.
#[derive(Clone, Copy, PartialEq, Eq, Structural)]
pub enum BlockKind {
    Text,
    Tool,
}

/// What is known of a tool call so far.
pub struct ToolStreamState {
    pub block_idx: Option<usize>,
    pub id: Option<String>,
    pub name: Option<String>,
    pub pending_args: String,
}

/// The state of a translation.
pub struct StreamState {
    pub next_block_idx: usize,
    pub current_block: Option<(usize, BlockKind)>,
    pub tools: HashMap<u32, ToolStreamState>,
    pub output_tokens: usize,
    pub finish_reason: Option<String>,
}

/// What a tool call is so far: its block, its id and name, and the arguments that
/// wait for the block to open.
#[verifier::ext_equal]
pub struct ToolView {
    pub block: Option<nat>,
    pub id: Option<Seq<char>>,
    pub name: Option<Seq<char>>,
    pub pending: Seq<char>,
}

/// What the state of a translation is.
#[verifier::ext_equal]
pub struct StreamView {
    pub next: nat,
    pub current: Option<(nat, BlockKind)>,
    pub tools: Map<u32, ToolView>,
    pub tokens: nat,
    pub finish: Option<Seq<char>>,
}

impl View for ToolStreamState {
    type V = ToolView;

    open spec fn view(&self) -> ToolView {
        ToolView {
            block: match self.block_idx {
                Some(idx) => Some(idx as nat),
                None => None,
            },
            id: opt_view(self.id),
            name: opt_view(self.name),
            pending: self.pending_args@,
        }
    }
}

/// The views of the tool calls.
pub open spec fn tools_view(tools: Map<u32, ToolStreamState>) -> Map<u32, ToolView> {
    tools.map_values(|t: ToolStreamState| t@)
}

impl View for StreamState {
    type V = StreamView;

    open spec fn view(&self) -> StreamView {
        StreamView {
            next: self.next_block_idx as nat,
            current: match self.current_block {
                Some((idx, kind)) => Some((idx as nat, kind)),
                None => None,
            },
            tools: tools_view(self.tools@),
            tokens: self.output_tokens as nat,
            finish: opt_view(self.finish_reason),
        }
    }
}

/// The state before anything arrived.
pub open spec fn initial() -> StreamView {
    StreamView { next: 0, current: None, tools: Map::empty(), tokens: 0, finish: None }
}

/// A tool call of which nothing is known.
pub open spec fn unknown_tool() -> ToolView {
    ToolView { block: None, id: None, name: None, pending: seq![] }
}

/// The events that close the current block.
pub open spec fn closing(s: StreamView) -> Seq<EventView> {
    match s.current {
        Some((idx, _)) => seq![EventView::BlockStop { index: idx }],
        None => seq![],
    }
}

/// The index of the current block.
pub open spec fn current_index(s: StreamView) -> Option<nat> {
    match s.current {
        Some((idx, _)) => Some(idx),
        None => None,
    }
}

/// The kind of the block that a header announces.
pub open spec fn header_kind(block: HeaderView) -> BlockKind {
    match block {
        HeaderView::Text => BlockKind::Text,
        HeaderView::ToolUse { .. } => BlockKind::Tool,
    }
}

/// Opens the next block, in place of the current one.
pub open spec fn open_step(s: StreamView, block: HeaderView) -> (StreamView, Seq<EventView>) {
    (
        StreamView { next: s.next + 1, current: Some((s.next, header_kind(block))), ..s },
        closing(s).push(EventView::BlockStart { index: s.next, block }),
    )
}

/// Sends a text in the current text block, or in a new one where the current
/// block is not a text block. An empty text changes nothing.
pub open spec fn text_step(s: StreamView, text: Seq<char>) -> (StreamView, Seq<EventView>) {
    if text.len() == 0 {
        (s, seq![])
    } else {
        let (t, events) = match s.current {
            Some((_, BlockKind::Text)) => (s, seq![]),
            _ => open_step(s, HeaderView::Text),
        };
        (
            StreamView { tokens: t.tokens + token_estimate(text), ..t },
            events.push(EventView::TextDelta { index: current_index(t)->0, text }),
        )
    }
}

/// Takes up the id and name that a delta gives.
pub open spec fn learn(tool: ToolView, delta: CallDeltaView) -> ToolView {
    ToolView {
        id: if delta.id.len() == 0 {
            tool.id
        } else {
            Some(delta.id)
        },
        name: if delta.name.len() == 0 {
            tool.name
        } else {
            Some(delta.name)
        },
        ..tool
    }
}

/// Sends arguments in the block of a tool call. The block becomes the current
/// one; where another was current, that one is closed.
pub open spec fn arguments_step(s: StreamView, idx: nat, arguments: Seq<char>) -> (
    StreamView,
    Seq<EventView>,
) {
    let (t, events) = if current_index(s) == Some(idx) {
        (s, seq![])
    } else {
        (StreamView { current: Some((idx, BlockKind::Tool)), ..s }, closing(s))
    };
    (
        StreamView { tokens: t.tokens + token_estimate(arguments), ..t },
        events.push(EventView::JsonDelta { index: idx, partial_json: arguments }),
    )
}

/// Opens the block of a tool call as soon as its id and name are known, and sends
/// the arguments that waited for that.
pub open spec fn announce_step(s: StreamView, tool: ToolView) -> (
    StreamView,
    ToolView,
    Seq<EventView>,
) {
    if tool.block is None && tool.id is Some && tool.name is Some {
        let (t, events) = open_step(
            s,
            HeaderView::ToolUse { id: tool.id->0, name: tool.name->0 },
        );
        let opened = ToolView { block: Some(s.next), ..tool };
        if tool.pending.len() == 0 {
            (t, opened, events)
        } else {
            let (u, more) = arguments_step(t, s.next, tool.pending);
            (u, ToolView { pending: seq![], ..opened }, events + more)
        }
    } else {
        (s, tool, seq![])
    }
}

/// Sends the arguments of a delta, or keeps them where the block of the tool call
/// is not open yet.
pub open spec fn pass_step(s: StreamView, tool: ToolView, arguments: Seq<char>) -> (
    StreamView,
    ToolView,
    Seq<EventView>,
) {
    if arguments.len() == 0 {
        (s, tool, seq![])
    } else {
        match tool.block {
            Some(idx) => {
                let (t, events) = arguments_step(s, idx, arguments);
                (t, tool, events)
            },
            None => (s, ToolView { pending: tool.pending + arguments, ..tool }, seq![]),
        }
    }
}

/// The tool call with the given index.
pub open spec fn tool_at(s: StreamView, index: u32) -> ToolView {
    if s.tools.contains_key(index) {
        s.tools[index]
    } else {
        unknown_tool()
    }
}

/// Takes up a tool call delta.
pub open spec fn call_step(s: StreamView, delta: CallDeltaView) -> (StreamView, Seq<EventView>) {
    let (t, tool, announced) = announce_step(s, learn(tool_at(s, delta.index), delta));
    let (u, known, passed) = pass_step(t, tool, delta.arguments);
    (StreamView { tools: u.tools.insert(delta.index, known), ..u }, announced + passed)
}

/// Takes up tool call deltas one after the other.
pub open spec fn calls_step(s: StreamView, deltas: Seq<CallDeltaView>) -> (
    StreamView,
    Seq<EventView>,
)
    decreases deltas.len(),
{
    if deltas.len() == 0 {
        (s, seq![])
    } else {
        let (t, events) = calls_step(s, deltas.drop_last());
        let (u, more) = call_step(t, deltas.last());
        (u, events + more)
    }
}

/// Takes up a chunk: its text, its tool call deltas, its finish reason.
pub open spec fn chunk_step(s: StreamView, chunk: ChunkView) -> (StreamView, Seq<EventView>) {
    let (t, texts) = text_step(s, chunk.text);
    let (u, calls) = calls_step(t, chunk.calls);
    (
        StreamView {
            finish: match chunk.finish {
                Some(reason) => Some(reason),
                None => u.finish,
            },
            ..u
        },
        texts + calls,
    )
}

/// The events that end a reply: the current block is closed, then the stop reason
/// and the token count are sent.
pub open spec fn ending(s: StreamView) -> Seq<EventView> {
    closing(s) + seq![
        EventView::MessageDelta {
            stop_reason: stop_reason_or_default(s.finish),
            output_tokens: s.tokens,
        },
        EventView::MessageStop,
    ]
}

/// The event that opens a reply.
pub fn opening(id: &str, model: &str, input_tokens: usize) -> (event: StreamEvent)
    ensures
        event@ == (EventView::MessageStart {
            id: id@,
            model: model@,
            input_tokens: input_tokens as nat,
        }),
{
    StreamEvent::MessageStart { id: id.to_owned(), model: model.to_owned(), input_tokens }
}

/// The counters of the state fit the machine.
pub open spec fn fits(s: StreamView) -> bool {
    s.next <= usize::MAX && s.tokens <= usize::MAX
}

/// The counters never decrease while tool call deltas are taken up.
pub proof fn lemma_calls_step_grows(s: StreamView, deltas: Seq<CallDeltaView>, n: int)
    requires
        0 <= n <= deltas.len(),
    ensures
        calls_step(s, deltas.take(n)).0.next <= calls_step(s, deltas).0.next,
        calls_step(s, deltas.take(n)).0.tokens <= calls_step(s, deltas).0.tokens,
    decreases deltas.len() - n,
{
    if n == deltas.len() {
        assert(deltas.take(n) =~= deltas);
    } else {
        lemma_calls_step_grows(s, deltas, n + 1);
        assert(deltas.take(n + 1).drop_last() =~= deltas.take(n));
    }
}

proof fn lemma_tools_view_insert(tools: Map<u32, ToolStreamState>, k: u32, tool: ToolStreamState)
    ensures
        tools_view(tools.insert(k, tool)) == tools_view(tools).insert(k, tool@),
{
    assert(tools_view(tools.insert(k, tool)) =~= tools_view(tools).insert(k, tool@));
}

proof fn lemma_events_view_push(events: Seq<StreamEvent>, event: StreamEvent)
    ensures
        events_view(events.push(event)) == events_view(events).push(event@),
{
    assert(events_view(events.push(event)) =~= events_view(events).push(event@));
}

fn emit(events: &mut Vec<StreamEvent>, event: StreamEvent)
    ensures
        events_view(final(events)@) == events_view(old(events)@).push(event@),
{
    proof {
        lemma_events_view_push(events@, event);
    }
    events.push(event);
}

impl StreamState {
    /// The state before anything arrived.
    pub fn new() -> (state: StreamState)
        ensures
            state@ == initial(),
    {
        let state = StreamState {
            next_block_idx: 0,
            current_block: None,
            tools: HashMap::new(),
            output_tokens: 0,
            finish_reason: None,
        };
        assert(state@.tools =~= Map::empty());
        state
    }

    fn close_current(&self, events: &mut Vec<StreamEvent>)
        ensures
            events_view(final(events)@) == events_view(old(events)@) + closing(self@),
    {
        if let Some((idx, _)) = self.current_block {
            emit(events, StreamEvent::BlockStop { index: idx });
        }
        assert(events_view(events@) =~= events_view(old(events)@) + closing(self@));
    }

    fn open_block(&mut self, block: BlockHeader, events: &mut Vec<StreamEvent>) -> (ok: bool)
        ensures
            ok == fits(open_step(old(self)@, block@).0),
            ok ==> final(self)@ == open_step(old(self)@, block@).0,
            ok ==> events_view(final(events)@) == events_view(old(events)@) + open_step(
                old(self)@,
                block@,
            ).1,
            final(self).tools@ == old(self).tools@,
    {
        let idx = self.next_block_idx;
        if idx == usize::MAX {
            return false;
        }
        self.close_current(events);
        let kind = match &block {
            BlockHeader::Text => BlockKind::Text,
            BlockHeader::ToolUse { .. } => BlockKind::Tool,
        };
        self.next_block_idx = idx + 1;
        self.current_block = Some((idx, kind));
        emit(events, StreamEvent::BlockStart { index: idx, block });
        assert(events_view(events@) =~= events_view(old(events)@) + open_step(
            old(self)@,
            block@,
        ).1);
        true
    }

    fn count_tokens(&mut self, text: &str) -> (ok: bool)
        ensures
            ok == (old(self)@.tokens + token_estimate(text@) <= usize::MAX),
            ok ==> final(self)@ == (StreamView {
                tokens: old(self)@.tokens + token_estimate(text@),
                ..old(self)@
            }),
            final(self).tools@ == old(self).tools@,
            final(self).current_block == old(self).current_block,
    {
        match self.output_tokens.checked_add(estimate_tokens(text)) {
            Some(tokens) => {
                self.output_tokens = tokens;
                true
            },
            None => false,
        }
    }

    fn send_text(&mut self, text: &str, events: &mut Vec<StreamEvent>) -> (ok: bool)
        ensures
            ok == fits(text_step(old(self)@, text@).0),
            ok ==> final(self)@ == text_step(old(self)@, text@).0,
            ok ==> events_view(final(events)@) == events_view(old(events)@) + text_step(
                old(self)@,
                text@,
            ).1,
    {
        let ghost step = text_step(old(self)@, text@);
        if text.is_empty() {
            assert(events_view(events@) =~= events_view(old(events)@) + step.1);
            return true;
        }
        let in_text = match self.current_block {
            Some((_, BlockKind::Text)) => true,
            _ => false,
        };
        if !in_text && !self.open_block(BlockHeader::Text, events) {
            return false;
        }
        if !self.count_tokens(text) {
            return false;
        }
        if let Some((idx, _)) = self.current_block {
            emit(events, StreamEvent::TextDelta { index: idx, text: text.to_owned() });
        }
        assert(events_view(events@) =~= events_view(old(events)@) + step.1);
        true
    }

    fn send_arguments(
        &mut self,
        idx: usize,
        arguments: &str,
        events: &mut Vec<StreamEvent>,
    ) -> (ok: bool)
        ensures
            ok == fits(arguments_step(old(self)@, idx as nat, arguments@).0),
            ok ==> final(self)@ == arguments_step(old(self)@, idx as nat, arguments@).0,
            ok ==> events_view(final(events)@) == events_view(old(events)@) + arguments_step(
                old(self)@,
                idx as nat,
                arguments@,
            ).1,
            final(self).tools@ == old(self).tools@,
    {
        let is_current = match self.current_block {
            Some((current, _)) => current == idx,
            None => false,
        };
        if !is_current {
            self.close_current(events);
            self.current_block = Some((idx, BlockKind::Tool));
        }
        if !self.count_tokens(arguments) {
            return false;
        }
        emit(
            events,
            StreamEvent::JsonDelta { index: idx, partial_json: arguments.to_owned() },
        );
        assert(events_view(events@) =~= events_view(old(events)@) + arguments_step(
            old(self)@,
            idx as nat,
            arguments@,
        ).1);
        true
    }

    fn announce(
        &mut self,
        tool: ToolStreamState,
        events: &mut Vec<StreamEvent>,
    ) -> (opened: Option<ToolStreamState>)
        ensures
            opened is Some == fits(announce_step(old(self)@, tool@).0),
            opened matches Some(known) ==> {
                &&& final(self)@ == announce_step(old(self)@, tool@).0
                &&& known@ == announce_step(old(self)@, tool@).1
                &&& events_view(final(events)@) == events_view(old(events)@) + announce_step(
                    old(self)@,
                    tool@,
                ).2
            },
            final(self).tools@ == old(self).tools@,
    {
        let ghost step = announce_step(old(self)@, tool@);
        if tool.block_idx.is_none() {
            if let (Some(id), Some(name)) = (&tool.id, &tool.name) {
                let idx = self.next_block_idx;
                let block = BlockHeader::ToolUse { id: id.clone(), name: name.clone() };
                if !self.open_block(block, events) {
                    return None;
                }
                let mut pending = tool.pending_args;
                if !pending.as_str().is_empty() {
                    if !self.send_arguments(idx, pending.as_str(), events) {
                        return None;
                    }
                    pending = String::new();
                }
                assert(events_view(events@) =~= events_view(old(events)@) + step.2);
                return Some(
                    ToolStreamState {
                        block_idx: Some(idx),
                        id: tool.id,
                        name: tool.name,
                        pending_args: pending,
                    },
                );
            }
        }
        assert(events_view(events@) =~= events_view(old(events)@) + step.2);
        Some(tool)
    }

    fn pass(
        &mut self,
        tool: ToolStreamState,
        arguments: &str,
        events: &mut Vec<StreamEvent>,
    ) -> (kept: Option<ToolStreamState>)
        ensures
            kept is Some == fits(pass_step(old(self)@, tool@, arguments@).0),
            kept matches Some(known) ==> {
                &&& final(self)@ == pass_step(old(self)@, tool@, arguments@).0
                &&& known@ == pass_step(old(self)@, tool@, arguments@).1
                &&& events_view(final(events)@) == events_view(old(events)@) + pass_step(
                    old(self)@,
                    tool@,
                    arguments@,
                ).2
            },
            final(self).tools@ == old(self).tools@,
    {
        let ghost step = pass_step(old(self)@, tool@, arguments@);
        let mut known = tool;
        if !arguments.is_empty() {
            match known.block_idx {
                Some(idx) => {
                    if !self.send_arguments(idx, arguments, events) {
                        return None;
                    }
                },
                None => {
                    known.pending_args.append(arguments);
                },
            }
        }
        assert(events_view(events@) =~= events_view(old(events)@) + step.2);
        Some(known)
    }

    fn take_call(&mut self, delta: &OpenAIToolCallDelta, events: &mut Vec<StreamEvent>) -> (ok:
        bool)
        ensures
            ok == fits(call_step(old(self)@, delta@).0),
            ok ==> final(self)@ == call_step(old(self)@, delta@).0,
            ok ==> events_view(final(events)@) == events_view(old(events)@) + call_step(
                old(self)@,
                delta@,
            ).1,
    {
        let ghost before = self@;
        let ghost step = call_step(old(self)@, delta@);
        let mut tool = match self.tools.remove(&delta.index) {
            Some(tool) => tool,
            None => ToolStreamState {
                block_idx: None,
                id: None,
                name: None,
                pending_args: String::new(),
            },
        };
        assert(tool@ == tool_at(before, delta.index));
        if let Some(id) = &delta.id {
            if !id.as_str().is_empty() {
                tool.id = Some(id.clone());
            }
        }
        if let Some(function) = &delta.function {
            if let Some(name) = &function.name {
                if !name.as_str().is_empty() {
                    tool.name = Some(name.clone());
                }
            }
        }
        assert(tool@ == learn(tool_at(before, delta.index), delta@));
        assert(announce_step(self@, tool@).0 == StreamView {
            tools: self@.tools,
            ..announce_step(before, tool@).0
        });
        let tool = match self.announce(tool, events) {
            Some(tool) => tool,
            None => return false,
        };
        let arguments = match &delta.function {
            Some(function) => match &function.arguments {
                Some(arguments) => arguments.as_str(),
                None => "",
            },
            None => "",
        };
        proof {
            reveal_strlit("");
            assert(arguments@ =~= delta@.arguments);
        }
        let known = match self.pass(tool, arguments, events) {
            Some(tool) => tool,
            None => return false,
        };
        proof {
            lemma_tools_view_insert(self.tools@, delta.index, known);
        }
        self.tools.insert(delta.index, known);
        proof {
            assert(self@.tools =~= step.0.tools);
            assert(events_view(events@) =~= events_view(old(events)@) + step.1);
        }
        true
    }

    fn take_calls(&mut self, deltas: &Vec<OpenAIToolCallDelta>, events: &mut Vec<StreamEvent>) -> (ok:
        bool)
        ensures
            ok == fits(calls_step(old(self)@, call_deltas_view(deltas@)).0),
            ok ==> final(self)@ == calls_step(old(self)@, call_deltas_view(deltas@)).0,
            ok ==> events_view(final(events)@) == events_view(old(events)@) + calls_step(
                old(self)@,
                call_deltas_view(deltas@),
            ).1,
    {
        let ghost start = self@;
        let ghost sent = events_view(events@);
        let ghost all = call_deltas_view(deltas@);
        let mut i: usize = 0;
        assert(all.take(0) =~= seq![]);
        assert(sent + seq![] =~= sent);
        while i < deltas.len()
            invariant
                i <= deltas@.len(),
                start == old(self)@,
                all == call_deltas_view(deltas@),
                self@ == calls_step(start, all.take(i as int)).0,
                events_view(events@) == sent + calls_step(start, all.take(i as int)).1,
            decreases deltas@.len() - i,
        {
            proof {
                lemma_calls_step_grows(start, all, i + 1);
                assert(all.take(i + 1).drop_last() =~= all.take(i as int));
                assert(all.take(i + 1).last() == deltas@[i as int]@);
            }
            if !self.take_call(&deltas[i], events) {
                return false;
            }
            assert(events_view(events@) =~= sent + calls_step(start, all.take(i + 1)).1);
            i += 1;
        }
        assert(all.take(all.len() as int) =~= all);
        true
    }

    /// Takes up a chunk of the upstream reply and returns the events that it
    /// causes; `None` where a counter would exceed what the machine can hold, and
    /// then the state is of no further use.
    pub fn take_chunk(&mut self, chunk: &OpenAIChunk) -> (events: Option<Vec<StreamEvent>>)
        ensures
            events is Some == fits(chunk_step(old(self)@, chunk@).0),
            events matches Some(sent) ==> {
                &&& final(self)@ == chunk_step(old(self)@, chunk@).0
                &&& events_view(sent@) == chunk_step(old(self)@, chunk@).1
            },
    {
        let ghost step = chunk_step(old(self)@, chunk@);
        let mut events: Vec<StreamEvent> = Vec::new();
        assert(events_view(events@) =~= seq![]);
        proof {
            lemma_calls_step_grows(text_step(self@, chunk@.text).0, chunk@.calls, 0);
            assert(chunk@.calls.take(0) =~= seq![]);
        }
        if let Some(choices) = &chunk.choices {
            if choices.len() > 0 {
                let choice = &choices[0];
                if let Some(delta) = &choice.delta {
                    if let Some(text) = &delta.content {
                        if !self.send_text(text.as_str(), &mut events) {
                            return None;
                        }
                    }
                    assert(events_view(events@) =~= text_step(old(self)@, chunk@.text).1);
                    if let Some(calls) = &delta.tool_calls {
                        if !self.take_calls(calls, &mut events) {
                            return None;
                        }
                    }
                }
                if let Some(reason) = &choice.finish_reason {
                    self.finish_reason = Some(reason.clone());
                }
            }
        }
        assert(events_view(events@) =~= step.1);
        assert(self@ =~= step.0);
        Some(events)
    }

    /// The events that end the reply.
    pub fn finish(&self) -> (events: Vec<StreamEvent>)
        ensures
            events_view(events@) == ending(self@),
    {
        let mut events: Vec<StreamEvent> = Vec::new();
        self.close_current(&mut events);
        let reason = final_stop_reason(&self.finish_reason);
        emit(
            &mut events,
            StreamEvent::MessageDelta {
                stop_reason: reason.to_owned(),
                output_tokens: self.output_tokens,
            },
        );
        emit(&mut events, StreamEvent::MessageStop);
        assert(events_view(events@) =~= ending(self@));
        events
    }
}

} // verus!
