//! What holds of every streamed reply.

use crate::chunk::{CallDeltaView, ChunkView};
use crate::event::{EventView, HeaderView};
use crate::stop_reason::stop_reason_or_default;
use crate::stream::{
    announce_step, arguments_step, call_step, calls_step, chunk_step, closing, current_index,
    ending, fits, header_kind, initial, learn, open_step, pass_step, text_step, tool_at, unknown_tool, BlockKind,
    StreamView, ToolView,
};
use crate::tokens::token_estimate;
use vstd::prelude::*;

verus! {

/// Takes up chunks one after the other.
pub open spec fn run(s: StreamView, chunks: Seq<ChunkView>) -> (StreamView, Seq<EventView>)
    decreases chunks.len(),
{
    if chunks.len() == 0 {
        (s, seq![])
    } else {
        let (t, events) = run(s, chunks.drop_last());
        let (u, more) = chunk_step(t, chunks.last());
        (u, events + more)
    }
}

/// All events of a reply: the opening, what the chunks cause, the ending.
pub open spec fn reply(
    id: Seq<char>,
    model: Seq<char>,
    input_tokens: nat,
    chunks: Seq<ChunkView>,
) -> Seq<EventView> {
    let (s, events) = run(initial(), chunks);
    seq![EventView::MessageStart { id, model, input_tokens }] + events + ending(s)
}

// ---- what a chunk does ----

/// A chunk that adds a text.
pub open spec fn text_chunk(text: Seq<char>) -> ChunkView {
    ChunkView { text, calls: seq![], finish: None }
}

/// A chunk that adds tool call deltas.
pub open spec fn calls_chunk(calls: Seq<CallDeltaView>) -> ChunkView {
    ChunkView { text: seq![], calls, finish: None }
}

/// A chunk that may give a finish reason.
pub open spec fn finish_chunk(finish: Option<Seq<char>>) -> ChunkView {
    ChunkView { text: seq![], calls: seq![], finish }
}

/// A stream begins with nothing open, nothing known and nothing counted, and takes
/// up its chunks one after the other.
pub proof fn law_chunks_are_taken_in_order(s: StreamView, chunks: Seq<ChunkView>, chunk: ChunkView)
    ensures
        initial().next == 0,
        initial().tokens == 0,
        initial().current is None,
        initial().finish is None,
        initial().tools.dom() == Set::<u32>::empty(),
        run(s, seq![]).0 == s,
        run(s, seq![]).1.len() == 0,
        ({
            let (t, sent) = run(s, chunks);
            let (u, more) = chunk_step(t, chunk);
            run(s, chunks.push(chunk)) == (u, sent + more)
        }),
{
    assert(chunks.push(chunk).drop_last() =~= chunks);
    assert(initial().tools.dom() =~= Set::<u32>::empty());
}

/// A chunk does what its text, its tool call deltas and its finish reason would do in
/// chunks of their own, in this order.
pub proof fn law_chunk_is_its_parts(s: StreamView, chunk: ChunkView)
    ensures
        ({
            let (t, texts) = chunk_step(s, text_chunk(chunk.text));
            let (u, calls) = chunk_step(t, calls_chunk(chunk.calls));
            let (v, ends) = chunk_step(u, finish_chunk(chunk.finish));
            chunk_step(s, chunk) == (v, texts + calls) && ends.len() == 0
        }),
{
    let (t, texts) = chunk_step(s, text_chunk(chunk.text));
    let (u, calls) = chunk_step(t, calls_chunk(chunk.calls));
    assert(texts =~= text_step(s, chunk.text).1);
    assert(calls =~= calls_step(t, chunk.calls).1);
    lemma_calls_step_keeps_finish(t, chunk.calls);
}

/// Tool call deltas of one chunk do what they would do in chunks of their own.
pub proof fn law_calls_are_taken_one_by_one(
    s: StreamView,
    calls: Seq<CallDeltaView>,
    delta: CallDeltaView,
)
    ensures
        ({
            let (t, sent) = chunk_step(s, calls_chunk(calls));
            let (u, more) = chunk_step(t, calls_chunk(seq![delta]));
            chunk_step(s, calls_chunk(calls.push(delta))) == (u, sent + more)
        }),
        chunk_step(s, calls_chunk(seq![])).0 == s,
        chunk_step(s, calls_chunk(seq![])).1.len() == 0,
{
    let all = calls.push(delta);
    let (t, sent) = chunk_step(s, calls_chunk(calls));
    let (u, more) = chunk_step(t, calls_chunk(seq![delta]));
    assert(all.drop_last() =~= calls);
    assert(seq![delta].drop_last() =~= seq![]);
    assert(calls_step(t, seq![delta].drop_last()) == (t, Seq::<EventView>::empty()));
    assert(sent =~= calls_step(s, calls).1);
    assert(more =~= call_step(t, delta).1);
    assert(chunk_step(s, calls_chunk(all)).1 =~= sent + more);
}

/// A finish reason is kept and sends nothing; without one nothing happens.
pub proof fn law_finish_reason_is_kept(s: StreamView, reason: Seq<char>)
    ensures
        chunk_step(s, finish_chunk(Some(reason))).0 == (StreamView { finish: Some(reason), ..s }),
        chunk_step(s, finish_chunk(Some(reason))).1.len() == 0,
        chunk_step(s, finish_chunk(None)).0 == s,
        chunk_step(s, finish_chunk(None)).1.len() == 0,
{
}

/// A text is sent at once and counted: in the current block where that is a text
/// block, and else in a new text block, for which the current one is closed.
pub proof fn law_text_is_sent_at_once(s: StreamView, text: Seq<char>)
    ensures
        ({
            let (t, events) = chunk_step(s, text_chunk(text));
            let delta = |index: nat| EventView::TextDelta { index, text };
            let start = EventView::BlockStart { index: s.next, block: HeaderView::Text };
            &&& text.len() == 0 ==> t == s && events.len() == 0
            &&& text.len() > 0 ==> {
                &&& t.tokens == s.tokens + token_estimate(text)
                &&& t.tools == s.tools
                &&& t.finish == s.finish
                &&& s.current matches Some((idx, BlockKind::Text)) ==> {
                    &&& events == seq![delta(idx)]
                    &&& t.next == s.next
                    &&& t.current == s.current
                }
                &&& s.current matches Some((idx, BlockKind::Tool)) ==> {
                    &&& events == seq![
                        EventView::BlockStop { index: idx },
                        start,
                        delta(s.next),
                    ]
                    &&& t.next == s.next + 1
                    &&& t.current == Some((s.next, BlockKind::Text))
                }
                &&& s.current is None ==> {
                    &&& events == seq![start, delta(s.next)]
                    &&& t.next == s.next + 1
                    &&& t.current == Some((s.next, BlockKind::Text))
                }
            }
        }),
{
    let (t, events) = chunk_step(s, text_chunk(text));
    assert(events =~= text_step(s, text).1);
    if text.len() > 0 {
        let start = EventView::BlockStart { index: s.next, block: HeaderView::Text };
        match s.current {
            Some((idx, BlockKind::Text)) => {
                assert(events =~= seq![EventView::TextDelta { index: idx, text }]);
            },
            Some((idx, BlockKind::Tool)) => {
                assert(events =~= seq![
                    EventView::BlockStop { index: idx },
                    start,
                    EventView::TextDelta { index: s.next, text },
                ]);
            },
            None => {
                assert(events =~= seq![start, EventView::TextDelta { index: s.next, text }]);
            },
        }
    }
}

/// What is known of the tool call with index `k`.
pub open spec fn known(s: StreamView, k: u32) -> Option<ToolView> {
    if s.tools.contains_key(k) {
        Some(s.tools[k])
    } else {
        None
    }
}

/// The text, where it is not empty, and else what was known before.
pub open spec fn or_before(text: Seq<char>, before: Option<Seq<char>>) -> Option<Seq<char>> {
    if text.len() > 0 {
        Some(text)
    } else {
        before
    }
}

/// The events that close the block that is open.
pub open spec fn close_of(s: StreamView) -> Seq<EventView> {
    if s.current is Some {
        seq![EventView::BlockStop { index: s.current->Some_0.0 }]
    } else {
        seq![]
    }
}

/// The event that sends arguments, where there are any.
pub open spec fn delta_of(index: nat, arguments: Seq<char>) -> Seq<EventView> {
    if arguments.len() > 0 {
        seq![EventView::JsonDelta { index, partial_json: arguments }]
    } else {
        seq![]
    }
}

/// The estimate for arguments, where there are any.
pub open spec fn count_of(arguments: Seq<char>) -> nat {
    if arguments.len() > 0 {
        token_estimate(arguments)
    } else {
        0
    }
}

/// A tool call delta concerns its own call only. It gives the call an id and a name,
/// as far as it has them. While one of these is missing, arguments wait. As soon as
/// both are known the call gets a block, announced under them, in which what waited
/// is sent; from then on arguments are sent at once, in that block.
pub proof fn law_call_deltas(s: StreamView, delta: CallDeltaView)
    ensures
        ({
            let (t, events) = chunk_step(s, calls_chunk(seq![delta]));
            let k = delta.index;
            let before = known(s, k);
            let block = if before is Some {
                before->0.block
            } else {
                None
            };
            let waiting = if before is Some {
                before->0.pending
            } else {
                seq![]
            };
            let id = or_before(
                delta.id,
                if before is Some {
                    before->0.id
                } else {
                    None
                },
            );
            let name = or_before(
                delta.name,
                if before is Some {
                    before->0.name
                } else {
                    None
                },
            );
            &&& t.finish == s.finish
            &&& forall|l: u32| l != k ==> #[trigger] known(t, l) == known(s, l)
            &&& known(t, k) is Some
            &&& known(t, k)->0.id == id
            &&& known(t, k)->0.name == name
            &&& block is None && (id is None || name is None) ==> {
                &&& events.len() == 0
                &&& t.next == s.next && t.current == s.current && t.tokens == s.tokens
                &&& known(t, k)->0.block is None
                &&& known(t, k)->0.pending == waiting + delta.arguments
            }
            &&& block is None && id is Some && name is Some ==> {
                &&& events == close_of(s) + seq![
                    EventView::BlockStart {
                        index: s.next,
                        block: HeaderView::ToolUse { id: id->0, name: name->0 },
                    },
                ] + delta_of(s.next, waiting) + delta_of(s.next, delta.arguments)
                &&& t.next == s.next + 1
                &&& t.current == Some((s.next, BlockKind::Tool))
                &&& t.tokens == s.tokens + count_of(waiting) + count_of(delta.arguments)
                &&& known(t, k)->0.block == Some(s.next)
                &&& known(t, k)->0.pending.len() == 0
            }
            &&& block is Some ==> {
                &&& t.next == s.next
                &&& t.tokens == s.tokens + count_of(delta.arguments)
                &&& known(t, k)->0.block == block
                &&& known(t, k)->0.pending == waiting
                &&& delta.arguments.len() == 0 ==> events.len() == 0 && t.current == s.current
                &&& delta.arguments.len() > 0 ==> {
                    let here = s.current is Some && s.current->Some_0.0 == block->0;
                    &&& here ==> events == delta_of(block->0, delta.arguments) && t.current
                        == s.current
                    &&& !here ==> events == close_of(s) + delta_of(block->0, delta.arguments)
                        && t.current == Some((block->0, BlockKind::Tool))
                }
            }
        }),
{
    let (t, events) = chunk_step(s, calls_chunk(seq![delta]));
    let k = delta.index;
    let tool = learn(tool_at(s, k), delta);
    assert(seq![delta].drop_last() =~= seq![]);
    assert(calls_step(s, seq![delta].drop_last()) == (s, Seq::<EventView>::empty()));
    assert(events =~= call_step(s, delta).1);
    let (u, opened_tool, announced) = announce_step(s, tool);
    let (v, kept, passed) = pass_step(u, opened_tool, delta.arguments);
    assert(events =~= announced + passed);
    assert(t.tools == s.tools.insert(k, kept));
    assert(closing(s) =~= close_of(s));
    if tool.block is None && tool.id is Some && tool.name is Some {
        let start = EventView::BlockStart {
            index: s.next,
            block: HeaderView::ToolUse { id: tool.id->0, name: tool.name->0 },
        };
        assert(announced =~= close_of(s) + seq![start] + delta_of(s.next, tool.pending));
        assert(passed =~= delta_of(s.next, delta.arguments));
        assert(events =~= close_of(s) + seq![start] + delta_of(s.next, tool.pending) + delta_of(
            s.next,
            delta.arguments,
        ));
    } else if tool.block is Some && delta.arguments.len() > 0 {
        if current_index(s) == tool.block {
            assert(events =~= delta_of(tool.block->0, delta.arguments));
        } else {
            assert(events =~= close_of(s) + delta_of(tool.block->0, delta.arguments));
        }
    } else if tool.block is None {
        assert(kept.pending =~= tool_at(s, k).pending + delta.arguments);
    }
}

/// A reply ends with the closing of the block that is open, where one is, then the
/// stop reason and the count, then the final mark.
pub proof fn law_ending(s: StreamView)
    ensures
        ending(s) == close_of(s) + seq![
            EventView::MessageDelta {
                stop_reason: stop_reason_or_default(s.finish),
                output_tokens: s.tokens,
            },
            EventView::MessageStop,
        ],
{
    assert(closing(s) =~= close_of(s));
}

// ---- which blocks there are ----

/// The blocks in the state make sense: blocks in use have been opened before, a
/// tool call has a block exactly when it has an id and a name, nothing waits for a
/// tool call that has one, and no two tool calls share a block.
pub open spec fn consistent(s: StreamView) -> bool {
    &&& current_index(s) matches Some(idx) ==> idx < s.next
    &&& forall|k: u32| #[trigger]
        s.tools.contains_key(k) ==> (s.tools[k].block matches Some(idx) ==> {
            &&& idx < s.next
            &&& s.tools[k].id is Some
            &&& s.tools[k].name is Some
            &&& s.tools[k].pending.len() == 0
        })
    &&& forall|k: u32| #[trigger]
        s.tools.contains_key(k) ==> (s.tools[k].block is None ==> s.tools[k].id is None
            || s.tools[k].name is None)
    &&& forall|k: u32, l: u32|
        k != l && s.tools.contains_key(k) && s.tools.contains_key(l) && s.tools[k].block is Some
            ==> #[trigger] s.tools[k].block != #[trigger] s.tools[l].block
}

proof fn lemma_call_step_consistent(s: StreamView, delta: CallDeltaView)
    requires
        consistent(s),
    ensures
        consistent(call_step(s, delta).0),
{
    let tool = learn(tool_at(s, delta.index), delta);
    let (t, opened, announced) = announce_step(s, tool);
    let (u, known, passed) = pass_step(t, opened, delta.arguments);
    let v = call_step(s, delta).0;
    assert(v.tools == s.tools.insert(delta.index, known));
    assert forall|k: u32, l: u32|
        k != l && v.tools.contains_key(k) && v.tools.contains_key(l) && v.tools[k].block
            is Some implies #[trigger] v.tools[k].block != #[trigger] v.tools[l].block by {
        if k != delta.index {
            assert(s.tools.contains_key(k));
            assert(v.tools[k] == s.tools[k]);
        }
        if l != delta.index {
            assert(s.tools.contains_key(l));
            assert(v.tools[l] == s.tools[l]);
        }
        if s.tools.contains_key(delta.index) {
            assert(s.tools[delta.index].block == tool.block);
        }
    }
}

proof fn lemma_calls_step_consistent(s: StreamView, deltas: Seq<CallDeltaView>)
    requires
        consistent(s),
    ensures
        consistent(calls_step(s, deltas).0),
    decreases deltas.len(),
{
    if deltas.len() > 0 {
        lemma_calls_step_consistent(s, deltas.drop_last());
        lemma_call_step_consistent(calls_step(s, deltas.drop_last()).0, deltas.last());
    }
}

proof fn lemma_text_step_consistent(s: StreamView, text: Seq<char>)
    requires
        consistent(s),
    ensures
        consistent(text_step(s, text).0),
{
}

/// Every chunk keeps the blocks of the state consistent.
pub proof fn law_chunk_keeps_consistency(s: StreamView, chunk: ChunkView)
    requires
        consistent(s),
    ensures
        consistent(chunk_step(s, chunk).0),
{
    lemma_text_step_consistent(s, chunk.text);
    let t = text_step(s, chunk.text).0;
    lemma_calls_step_consistent(t, chunk.calls);
    let u = calls_step(t, chunk.calls).0;
    let v = chunk_step(s, chunk).0;
    assert(v.tools == u.tools && v.next == u.next && v.current == u.current);
}

/// Whatever arrives, the blocks of the state are consistent.
pub proof fn law_reachable_is_consistent(chunks: Seq<ChunkView>)
    ensures
        consistent(run(initial(), chunks).0),
    decreases chunks.len(),
{
    if chunks.len() > 0 {
        law_reachable_is_consistent(chunks.drop_last());
        law_chunk_keeps_consistency(run(initial(), chunks.drop_last()).0, chunks.last());
    }
}

// ---- the order of the events ----

/// How far a reader of the events is: the block that is open, and the index that
/// the next block has to have.
#[verifier::ext_equal]
pub struct Progress {
    pub open: Option<nat>,
    pub next: nat,
}

/// The progress that a state stands for.
pub open spec fn progress(s: StreamView) -> Progress {
    Progress { open: current_index(s), next: s.next }
}

/// Reads an event by the client's protocol: blocks have consecutive indices, a
/// block is opened when none is open, only the open block gets deltas and is
/// closed. `None` where the event breaks that. With `lenient`, a delta may also
/// take up an earlier block again when none is open.
pub open spec fn read(p: Progress, event: EventView, lenient: bool) -> Option<Progress> {
    match event {
        EventView::BlockStart { index, .. } => if p.open is None && index == p.next {
            Some(Progress { open: Some(index), next: p.next + 1 })
        } else {
            None
        },
        EventView::TextDelta { index, .. } => if p.open == Some(index) {
            Some(p)
        } else {
            None
        },
        EventView::JsonDelta { index, .. } => if p.open == Some(index) || (lenient && p.open is None
            && index < p.next) {
            Some(Progress { open: Some(index), ..p })
        } else {
            None
        },
        EventView::BlockStop { index } => if p.open == Some(index) {
            Some(Progress { open: None, ..p })
        } else {
            None
        },
        _ => None,
    }
}

/// Reads events one after the other.
pub open spec fn read_all(p: Progress, events: Seq<EventView>, lenient: bool) -> Option<Progress>
    decreases events.len(),
{
    if events.len() == 0 {
        Some(p)
    } else {
        match read_all(p, events.drop_last(), lenient) {
            Some(q) => read(q, events.last(), lenient),
            None => None,
        }
    }
}

/// Reading one list after the other is reading both at once.
proof fn lemma_read_all_concat(
    p: Progress,
    a: Seq<EventView>,
    b: Seq<EventView>,
    lenient: bool,
)
    ensures
        read_all(p, a + b, lenient) == match read_all(p, a, lenient) {
            Some(q) => read_all(q, b, lenient),
            None => None,
        },
    decreases b.len(),
{
    if b.len() == 0 {
        assert(a + b =~= a);
    } else {
        lemma_read_all_concat(p, a, b.drop_last(), lenient);
        assert((a + b).drop_last() =~= a + b.drop_last());
        assert((a + b).last() == b.last());
    }
}

proof fn lemma_read_one(p: Progress, event: EventView, lenient: bool)
    ensures
        read_all(p, seq![event], lenient) == read(p, event, lenient),
{
    assert(seq![event].drop_last() =~= seq![]);
    assert(read_all(p, seq![], lenient) == Some(p));
}

proof fn lemma_read_push(p: Progress, a: Seq<EventView>, event: EventView, lenient: bool)
    ensures
        read_all(p, a.push(event), lenient) == match read_all(p, a, lenient) {
            Some(q) => read(q, event, lenient),
            None => None,
        },
{
    assert(a.push(event).drop_last() =~= a);
}

proof fn lemma_read_closing(s: StreamView, lenient: bool)
    ensures
        read_all(progress(s), closing(s), lenient) == Some(Progress { open: None, next: s.next }),
{
    match s.current {
        Some((idx, _)) => {
            lemma_read_one(progress(s), EventView::BlockStop { index: idx }, lenient);
        },
        None => {},
    }
}

proof fn lemma_read_open(s: StreamView, block: HeaderView, lenient: bool)
    ensures
        read_all(progress(s), open_step(s, block).1, lenient) == Some(
            progress(open_step(s, block).0),
        ),
{
    lemma_read_closing(s, lenient);
    lemma_read_push(
        progress(s),
        closing(s),
        EventView::BlockStart { index: s.next, block },
        lenient,
    );
}

proof fn lemma_read_text(s: StreamView, text: Seq<char>, lenient: bool)
    ensures
        read_all(progress(s), text_step(s, text).1, lenient) == Some(
            progress(text_step(s, text).0),
        ),
{
    if text.len() > 0 {
        let (t, events) = match s.current {
            Some((_, BlockKind::Text)) => (s, seq![]),
            _ => open_step(s, HeaderView::Text),
        };
        lemma_read_open(s, HeaderView::Text, lenient);
        lemma_read_push(
            progress(s),
            events,
            EventView::TextDelta { index: current_index(t)->0, text },
            lenient,
        );
    }
}

proof fn lemma_read_arguments(s: StreamView, idx: nat, arguments: Seq<char>, lenient: bool)
    requires
        idx < s.next,
        lenient || current_index(s) == Some(idx),
    ensures
        read_all(progress(s), arguments_step(s, idx, arguments).1, lenient) == Some(
            progress(arguments_step(s, idx, arguments).0),
        ),
{
    let event = EventView::JsonDelta { index: idx, partial_json: arguments };
    if current_index(s) == Some(idx) {
        lemma_read_push(progress(s), seq![], event, lenient);
    } else {
        lemma_read_closing(s, lenient);
        lemma_read_push(progress(s), closing(s), event, lenient);
    }
}

/// The delta sends arguments in a block that is not the current one.
pub open spec fn resumes(s: StreamView, delta: CallDeltaView) -> bool {
    let block = tool_at(s, delta.index).block;
    delta.arguments.len() > 0 && block is Some && block != current_index(s)
}

proof fn lemma_read_call(s: StreamView, delta: CallDeltaView, lenient: bool)
    requires
        consistent(s),
        lenient || !resumes(s, delta),
    ensures
        read_all(progress(s), call_step(s, delta).1, lenient) == Some(
            progress(call_step(s, delta).0),
        ),
{
    let tool = learn(tool_at(s, delta.index), delta);
    let (t, opened, announced) = announce_step(s, tool);
    let (u, known, passed) = pass_step(t, opened, delta.arguments);
    if tool.block is None && tool.id is Some && tool.name is Some {
        let header = HeaderView::ToolUse { id: tool.id->0, name: tool.name->0 };
        lemma_read_open(s, header, lenient);
        let (o, events) = open_step(s, header);
        if tool.pending.len() > 0 {
            lemma_read_arguments(o, s.next, tool.pending, lenient);
            lemma_read_all_concat(
                progress(s),
                events,
                arguments_step(o, s.next, tool.pending).1,
                lenient,
            );
        }
    }
    assert(read_all(progress(s), announced, lenient) == Some(progress(t)));
    if delta.arguments.len() > 0 && opened.block is Some {
        lemma_read_arguments(t, opened.block->0, delta.arguments, lenient);
    }
    assert(read_all(progress(t), passed, lenient) == Some(progress(u)));
    lemma_read_all_concat(progress(s), announced, passed, lenient);
}

/// One of the deltas sends arguments in a block that is not the current one.
pub open spec fn calls_resume(s: StreamView, deltas: Seq<CallDeltaView>) -> bool
    decreases deltas.len(),
{
    deltas.len() > 0 && (calls_resume(s, deltas.drop_last()) || resumes(
        calls_step(s, deltas.drop_last()).0,
        deltas.last(),
    ))
}

proof fn lemma_read_calls(s: StreamView, deltas: Seq<CallDeltaView>, lenient: bool)
    requires
        consistent(s),
        lenient || !calls_resume(s, deltas),
    ensures
        read_all(progress(s), calls_step(s, deltas).1, lenient) == Some(
            progress(calls_step(s, deltas).0),
        ),
    decreases deltas.len(),
{
    if deltas.len() > 0 {
        let before = deltas.drop_last();
        let (t, events) = calls_step(s, before);
        lemma_read_calls(s, before, lenient);
        lemma_calls_step_consistent(s, before);
        lemma_read_call(t, deltas.last(), lenient);
        lemma_read_all_concat(progress(s), events, call_step(t, deltas.last()).1, lenient);
    }
}

/// The chunk sends arguments in a block that is not the current one.
pub open spec fn chunk_resumes(s: StreamView, chunk: ChunkView) -> bool {
    calls_resume(text_step(s, chunk.text).0, chunk.calls)
}

proof fn lemma_read_chunk(s: StreamView, chunk: ChunkView, lenient: bool)
    requires
        consistent(s),
        lenient || !chunk_resumes(s, chunk),
    ensures
        read_all(progress(s), chunk_step(s, chunk).1, lenient) == Some(
            progress(chunk_step(s, chunk).0),
        ),
{
    let (t, texts) = text_step(s, chunk.text);
    lemma_read_text(s, chunk.text, lenient);
    lemma_text_step_consistent(s, chunk.text);
    lemma_read_calls(t, chunk.calls, lenient);
    lemma_read_all_concat(progress(s), texts, calls_step(t, chunk.calls).1, lenient);
}

/// One of the chunks sends arguments in a block that is not the current one.
pub open spec fn run_resumes(s: StreamView, chunks: Seq<ChunkView>) -> bool
    decreases chunks.len(),
{
    chunks.len() > 0 && (run_resumes(s, chunks.drop_last()) || chunk_resumes(
        run(s, chunks.drop_last()).0,
        chunks.last(),
    ))
}

proof fn lemma_read_run(chunks: Seq<ChunkView>, lenient: bool)
    requires
        lenient || !run_resumes(initial(), chunks),
    ensures
        read_all(progress(initial()), run(initial(), chunks).1, lenient) == Some(
            progress(run(initial(), chunks).0),
        ),
    decreases chunks.len(),
{
    if chunks.len() > 0 {
        let before = chunks.drop_last();
        let (t, events) = run(initial(), before);
        lemma_read_run(before, lenient);
        law_reachable_is_consistent(before);
        lemma_read_chunk(t, chunks.last(), lenient);
        lemma_read_all_concat(
            progress(initial()),
            events,
            chunk_step(t, chunks.last()).1,
            lenient,
        );
    }
}

/// The events of a reply between its opening and its ending.
pub open spec fn middle(events: Seq<EventView>) -> Seq<EventView> {
    events.subrange(1, events.len() - 2)
}

proof fn lemma_read_reply(
    id: Seq<char>,
    model: Seq<char>,
    input_tokens: nat,
    chunks: Seq<ChunkView>,
    lenient: bool,
)
    requires
        lenient || !run_resumes(initial(), chunks),
    ensures
        read_all(
            Progress { open: None, next: 0 },
            middle(reply(id, model, input_tokens, chunks)),
            lenient,
        ) == Some(Progress { open: None, next: run(initial(), chunks).0.next }),
{
    let (s, events) = run(initial(), chunks);
    lemma_read_run(chunks, lenient);
    lemma_read_closing(s, lenient);
    lemma_read_all_concat(progress(initial()), events, closing(s), lenient);
    assert(middle(reply(id, model, input_tokens, chunks)) =~= events + closing(s));
}

/// A reply begins with its opening and ends with the stop reason, the token count
/// and the final mark.
pub proof fn law_reply_frame(
    id: Seq<char>,
    model: Seq<char>,
    input_tokens: nat,
    chunks: Seq<ChunkView>,
)
    ensures
        ({
            let events = reply(id, model, input_tokens, chunks);
            let s = run(initial(), chunks).0;
            &&& events.len() >= 3
            &&& events[0] == EventView::MessageStart { id, model, input_tokens }
            &&& events[events.len() - 2] == EventView::MessageDelta {
                stop_reason: stop_reason_or_default(s.finish),
                output_tokens: s.tokens,
            }
            &&& events[events.len() - 1] == EventView::MessageStop
        }),
{
}

/// Where no chunk takes up an earlier block again, the blocks of a reply follow
/// the client's protocol: block 0 is opened, gets deltas and is closed, then block
/// 1, and so on, and at the end none is open.
pub proof fn law_blocks_do_not_interleave(
    id: Seq<char>,
    model: Seq<char>,
    input_tokens: nat,
    chunks: Seq<ChunkView>,
)
    requires
        !run_resumes(initial(), chunks),
    ensures
        read_all(
            Progress { open: None, next: 0 },
            middle(reply(id, model, input_tokens, chunks)),
            false,
        ) == Some(Progress { open: None, next: run(initial(), chunks).0.next }),
{
    lemma_read_reply(id, model, input_tokens, chunks, false);
}

/// Whatever arrives, blocks are opened with consecutive indices and only when none
/// is open, every delta belongs to a block that has been opened, and at the end
/// none is open.
pub proof fn law_one_block_at_a_time(
    id: Seq<char>,
    model: Seq<char>,
    input_tokens: nat,
    chunks: Seq<ChunkView>,
)
    ensures
        read_all(
            Progress { open: None, next: 0 },
            middle(reply(id, model, input_tokens, chunks)),
            true,
        ) == Some(Progress { open: None, next: run(initial(), chunks).0.next }),
{
    lemma_read_reply(id, model, input_tokens, chunks, true);
}

// ---- what the blocks are for ----

/// A block of the kind was opened under the index.
pub open spec fn opened(events: Seq<EventView>, index: nat, kind: BlockKind) -> bool {
    exists|j: int|
        0 <= j < events.len() && (#[trigger] events[j] matches EventView::BlockStart {
            index: at,
            block,
        } && at == index && header_kind(block) == kind)
}

/// The event number `i` has its place: a delta carries something, and goes to a
/// block of its kind that was opened before; a text block is opened only to send a
/// text in it at once.
pub open spec fn in_place(events: Seq<EventView>, i: int) -> bool {
    match events[i] {
        EventView::TextDelta { index, text } => text.len() > 0 && opened(
            events.take(i),
            index,
            BlockKind::Text,
        ),
        EventView::JsonDelta { index, partial_json } => partial_json.len() > 0 && opened(
            events.take(i),
            index,
            BlockKind::Tool,
        ),
        EventView::BlockStart { index, block: HeaderView::Text } => i + 1 < events.len()
            && (events[i + 1] matches EventView::TextDelta { index: at, .. } && at == index),
        _ => true,
    }
}

/// Every event has its place.
pub open spec fn all_in_place(events: Seq<EventView>) -> bool {
    forall|i: int| 0 <= i < events.len() ==> #[trigger] in_place(events, i)
}

/// The call with index `k` has its tool use block under the index.
pub open spec fn belongs_to(s: StreamView, index: nat, k: u32) -> bool {
    s.tools.contains_key(k) && s.tools[k].block == Some(index)
}

/// Every tool use block that was opened belongs to a call.
pub open spec fn all_owned(s: StreamView, events: Seq<EventView>) -> bool {
    forall|i: int|
        0 <= i < events.len() ==> (#[trigger] events[i] matches EventView::BlockStart {
            index,
            block: HeaderView::ToolUse { .. },
        } ==> exists|k: u32| belongs_to(s, index, k))
}

/// The state and the events that were sent fit together.
spec fn fits_together(s: StreamView, events: Seq<EventView>) -> bool {
    &&& all_in_place(events)
    &&& s.current matches Some((idx, BlockKind::Text)) ==> opened(events, idx, BlockKind::Text)
    &&& forall|k: u32| #[trigger]
        s.tools.contains_key(k) ==> (s.tools[k].block matches Some(idx) ==> opened(
            events,
            idx,
            BlockKind::Tool,
        ))
}

proof fn lemma_opened_grows(events: Seq<EventView>, more: Seq<EventView>, index: nat, kind: BlockKind)
    requires
        opened(events, index, kind),
    ensures
        opened(events + more, index, kind),
{
    let j = choose|j: int|
        0 <= j < events.len() && (#[trigger] events[j] matches EventView::BlockStart {
            index: at,
            block,
        } && at == index && header_kind(block) == kind);
    assert((events + more)[j] == events[j]);
}

/// An event keeps its place when more events follow.
proof fn lemma_stays_in_place(events: Seq<EventView>, more: Seq<EventView>, i: int)
    requires
        0 <= i < events.len(),
        in_place(events, i),
    ensures
        in_place(events + more, i),
{
    assert((events + more).take(i) =~= events.take(i));
    assert((events + more)[i] == events[i]);
    if i + 1 < events.len() {
        assert((events + more)[i + 1] == events[i + 1]);
    }
}

/// Events that are neither deltas nor text block starts have their place anywhere.
proof fn lemma_append_plain(events: Seq<EventView>, event: EventView)
    requires
        all_in_place(events),
        !(event is TextDelta) && !(event is JsonDelta),
        !(event matches EventView::BlockStart { block: HeaderView::Text, .. }),
    ensures
        all_in_place(events.push(event)),
{
    let all = events.push(event);
    assert(all =~= events + seq![event]);
    assert forall|i: int| 0 <= i < all.len() implies #[trigger] in_place(all, i) by {
        if i < events.len() {
            assert(in_place(events, i));
            lemma_stays_in_place(events, seq![event], i);
        }
    }
}

proof fn lemma_append_arguments(events: Seq<EventView>, index: nat, arguments: Seq<char>)
    requires
        all_in_place(events),
        arguments.len() > 0,
        opened(events, index, BlockKind::Tool),
    ensures
        all_in_place(events.push(EventView::JsonDelta { index, partial_json: arguments })),
{
    let event = EventView::JsonDelta { index, partial_json: arguments };
    let all = events.push(event);
    assert(all =~= events + seq![event]);
    assert forall|i: int| 0 <= i < all.len() implies #[trigger] in_place(all, i) by {
        if i < events.len() {
            assert(in_place(events, i));
            lemma_stays_in_place(events, seq![event], i);
        } else {
            assert(all.take(i) =~= events);
        }
    }
}

proof fn lemma_append_closing(s: StreamView, events: Seq<EventView>)
    requires
        all_in_place(events),
    ensures
        all_in_place(events + closing(s)),
{
    match s.current {
        Some((idx, _)) => {
            let stop = EventView::BlockStop { index: idx };
            lemma_append_plain(events, stop);
            assert(events + closing(s) =~= events.push(stop));
        },
        None => {
            assert(events + closing(s) =~= events);
        },
    }
}

proof fn lemma_text_step_in_place(s: StreamView, text: Seq<char>, events: Seq<EventView>)
    requires
        fits_together(s, events),
    ensures
        fits_together(text_step(s, text).0, events + text_step(s, text).1),
{
    let (t, more) = text_step(s, text);
    let all = events + more;
    if text.len() == 0 {
        assert(all =~= events);
    } else {
        let delta = EventView::TextDelta { index: current_index(t)->0, text };
        let in_text = s.current matches Some((_, BlockKind::Text));
        if in_text {
            assert(all =~= events.push(delta));
            assert forall|i: int| 0 <= i < all.len() implies #[trigger] in_place(all, i) by {
                if i < events.len() {
                    assert(in_place(events, i));
                    lemma_stays_in_place(events, more, i);
                } else {
                    assert(all.take(i) =~= events);
                }
            }
            lemma_opened_grows(events, more, current_index(s)->0, BlockKind::Text);
        } else {
            let start = EventView::BlockStart { index: s.next, block: HeaderView::Text };
            let closed = events + closing(s);
            lemma_append_closing(s, events);
            assert(all =~= closed + seq![start, delta]);
            let at = closed.len() as int;
            assert(all[at] == start);
            assert(all[at + 1] == delta);
            assert(opened(all, s.next, BlockKind::Text));
            assert forall|i: int| 0 <= i < all.len() implies #[trigger] in_place(all, i) by {
                if i < at {
                    assert(in_place(closed, i));
                    lemma_stays_in_place(closed, seq![start, delta], i);
                } else if i == at + 1 {
                    assert(all.take(i)[at] == start);
                }
            }
        }
        assert forall|k: u32| #[trigger] t.tools.contains_key(k) implies (t.tools[k].block matches Some(
            idx,
        ) ==> opened(all, idx, BlockKind::Tool)) by {
            assert(s.tools.contains_key(k));
            if let Some(idx) = t.tools[k].block {
                lemma_opened_grows(events, more, idx, BlockKind::Tool);
            }
        }
    }
}

proof fn lemma_arguments_step_in_place(
    s: StreamView,
    idx: nat,
    arguments: Seq<char>,
    events: Seq<EventView>,
)
    requires
        all_in_place(events),
        arguments.len() > 0,
        opened(events, idx, BlockKind::Tool),
    ensures
        all_in_place(events + arguments_step(s, idx, arguments).1),
{
    let more = arguments_step(s, idx, arguments).1;
    let delta = EventView::JsonDelta { index: idx, partial_json: arguments };
    if current_index(s) == Some(idx) {
        lemma_append_arguments(events, idx, arguments);
        assert(events + more =~= events.push(delta));
    } else {
        let closed = events + closing(s);
        lemma_append_closing(s, events);
        lemma_opened_grows(events, closing(s), idx, BlockKind::Tool);
        lemma_append_arguments(closed, idx, arguments);
        assert(events + more =~= closed.push(delta));
    }
}

/// What a tool call delta sends has its place, and its call has its block open.
proof fn lemma_call_step_in_place(s: StreamView, delta: CallDeltaView, events: Seq<EventView>)
    requires
        fits_together(s, events),
    ensures
        fits_together(call_step(s, delta).0, events + call_step(s, delta).1),
{
    let tool = learn(tool_at(s, delta.index), delta);
    let (t, known, announced) = announce_step(s, tool);
    let (u, kept, passed) = pass_step(t, known, delta.arguments);
    let v = call_step(s, delta).0;
    let all = events + call_step(s, delta).1;
    let sent = events + announced;
    assert(all =~= sent + passed);
    assert(v.tools == s.tools.insert(delta.index, kept));
    let opens = tool.block is None && tool.id is Some && tool.name is Some;
    if opens {
        let start = EventView::BlockStart {
            index: s.next,
            block: HeaderView::ToolUse { id: tool.id->0, name: tool.name->0 },
        };
        let closed = events + closing(s);
        lemma_append_closing(s, events);
        lemma_append_plain(closed, start);
        let begun = closed.push(start);
        assert(begun[closed.len() as int] == start);
        assert(opened(begun, s.next, BlockKind::Tool));
        if tool.pending.len() > 0 {
            lemma_append_arguments(begun, s.next, tool.pending);
            let waited = EventView::JsonDelta { index: s.next, partial_json: tool.pending };
            assert(sent =~= begun + seq![waited]);
            assert(sent =~= begun.push(waited));
            lemma_opened_grows(begun, seq![waited], s.next, BlockKind::Tool);
        } else {
            assert(sent =~= begun);
        }
    } else {
        assert(sent =~= events);
        if let Some(idx) = tool.block {
            assert(s.tools.contains_key(delta.index));
        }
    }
    assert(all_in_place(sent));
    assert(known.block matches Some(idx) ==> opened(sent, idx, BlockKind::Tool));
    if delta.arguments.len() > 0 && known.block is Some {
        lemma_arguments_step_in_place(t, known.block->0, delta.arguments, sent);
    } else {
        assert(all =~= sent);
    }
    if let Some((idx, BlockKind::Text)) = v.current {
        assert(s.current == Some((idx, BlockKind::Text)));
        lemma_opened_grows(events, call_step(s, delta).1, idx, BlockKind::Text);
    }
    assert forall|k: u32| #[trigger] v.tools.contains_key(k) implies (v.tools[k].block matches Some(
        idx,
    ) ==> opened(all, idx, BlockKind::Tool)) by {
        if let Some(idx) = v.tools[k].block {
            if k == delta.index {
                lemma_opened_grows(sent, passed, idx, BlockKind::Tool);
            } else {
                assert(s.tools.contains_key(k));
                lemma_opened_grows(events, call_step(s, delta).1, idx, BlockKind::Tool);
            }
        }
    }
}

/// What a tool call delta opens belongs to its call, and what belonged to a call
/// stays with it.
proof fn lemma_call_step_owned(s: StreamView, delta: CallDeltaView, events: Seq<EventView>)
    requires
        all_owned(s, events),
    ensures
        all_owned(call_step(s, delta).0, events + call_step(s, delta).1),
{
    let v = call_step(s, delta).0;
    let more = call_step(s, delta).1;
    let all = events + more;
    assert forall|i: int| 0 <= i < all.len() implies (#[trigger] all[i] matches EventView::BlockStart {
        index,
        block: HeaderView::ToolUse { .. },
    } ==> exists|k: u32| belongs_to(v, index, k)) by {
        if let EventView::BlockStart { index, block: HeaderView::ToolUse { .. } } = all[i] {
            if i < events.len() {
                assert(events[i] == all[i]);
                let k = choose|k: u32| belongs_to(s, index, k);
                assert(belongs_to(s, index, k));
                assert(belongs_to(v, index, k));
            } else {
                assert(all[i] == more[i - events.len()]);
                assert(belongs_to(v, index, delta.index));
            }
        }
    }
}

proof fn lemma_calls_step_in_place(
    s: StreamView,
    deltas: Seq<CallDeltaView>,
    events: Seq<EventView>,
)
    requires
        fits_together(s, events),
        all_owned(s, events),
    ensures
        fits_together(calls_step(s, deltas).0, events + calls_step(s, deltas).1),
        all_owned(calls_step(s, deltas).0, events + calls_step(s, deltas).1),
    decreases deltas.len(),
{
    if deltas.len() == 0 {
        assert(events + calls_step(s, deltas).1 =~= events);
    } else {
        let (t, sent) = calls_step(s, deltas.drop_last());
        let (u, more) = call_step(t, deltas.last());
        lemma_calls_step_in_place(s, deltas.drop_last(), events);
        lemma_call_step_in_place(t, deltas.last(), events + sent);
        lemma_call_step_owned(t, deltas.last(), events + sent);
        assert(events + (sent + more) =~= events + sent + more);
    }
}

proof fn lemma_text_step_owned(s: StreamView, text: Seq<char>, events: Seq<EventView>)
    requires
        all_owned(s, events),
    ensures
        all_owned(text_step(s, text).0, events + text_step(s, text).1),
{
    let (t, more) = text_step(s, text);
    let all = events + more;
    assert forall|i: int| 0 <= i < all.len() implies (#[trigger] all[i] matches EventView::BlockStart {
        index,
        block: HeaderView::ToolUse { .. },
    } ==> exists|k: u32| belongs_to(t, index, k)) by {
        if let EventView::BlockStart { index, block: HeaderView::ToolUse { .. } } = all[i] {
            if i < events.len() {
                assert(events[i] == all[i]);
                let k = choose|k: u32| belongs_to(s, index, k);
                assert(belongs_to(s, index, k));
                assert(belongs_to(t, index, k));
            } else {
                assert(all[i] == more[i - events.len()]);
            }
        }
    }
}

proof fn lemma_run_in_place(start: EventView, chunks: Seq<ChunkView>)
    requires
        start is MessageStart,
    ensures
        fits_together(run(initial(), chunks).0, seq![start] + run(initial(), chunks).1),
        all_owned(run(initial(), chunks).0, seq![start] + run(initial(), chunks).1),
    decreases chunks.len(),
{
    if chunks.len() == 0 {
        assert(seq![start] + run(initial(), chunks).1 =~= seq![start]);
    } else {
        let before = chunks.drop_last();
        let chunk = chunks.last();
        lemma_run_in_place(start, before);
        let (s, events) = run(initial(), before);
        let sent = seq![start] + events;
        let (t, texts) = text_step(s, chunk.text);
        let (u, calls) = calls_step(t, chunk.calls);
        lemma_text_step_in_place(s, chunk.text, sent);
        lemma_text_step_owned(s, chunk.text, sent);
        lemma_calls_step_in_place(t, chunk.calls, sent + texts);
        let v = chunk_step(s, chunk).0;
        let all = sent + texts + calls;
        assert(v.tools == u.tools && v.current == u.current);
        assert(seq![start] + (events + (texts + calls)) =~= all);
        assert forall|i: int| 0 <= i < all.len() implies (#[trigger] all[i] matches EventView::BlockStart {
            index,
            block: HeaderView::ToolUse { .. },
        } ==> exists|k: u32| belongs_to(v, index, k)) by {
            if let EventView::BlockStart { index, block: HeaderView::ToolUse { .. } } = all[i] {
                let k = choose|k: u32| belongs_to(u, index, k);
                assert(belongs_to(v, index, k));
            }
        }
    }
}

/// In every reply each delta carries something and goes to a block of its kind, a
/// text block is opened only to send a text in it at once, and each tool use block
/// belongs to exactly one tool call.
pub proof fn law_blocks_have_their_use(
    id: Seq<char>,
    model: Seq<char>,
    input_tokens: nat,
    chunks: Seq<ChunkView>,
)
    ensures
        ({
            let events = reply(id, model, input_tokens, chunks);
            let s = run(initial(), chunks).0;
            &&& all_in_place(events)
            &&& all_owned(s, events)
            &&& forall|index: nat, k: u32, l: u32|
                #[trigger] belongs_to(s, index, k) && #[trigger] belongs_to(s, index, l) ==> k == l
        }),
{
    let start = EventView::MessageStart { id, model, input_tokens };
    let (s, events) = run(initial(), chunks);
    let sent = seq![start] + events;
    lemma_run_in_place(start, chunks);
    law_reachable_is_consistent(chunks);
    let closed = sent + closing(s);
    lemma_append_closing(s, sent);
    let last = EventView::MessageDelta {
        stop_reason: stop_reason_or_default(s.finish),
        output_tokens: s.tokens,
    };
    lemma_append_plain(closed, last);
    lemma_append_plain(closed.push(last), EventView::MessageStop);
    let all = reply(id, model, input_tokens, chunks);
    assert(all =~= closed.push(last).push(EventView::MessageStop));
    assert forall|i: int| 0 <= i < all.len() implies (#[trigger] all[i] matches EventView::BlockStart {
        index,
        block: HeaderView::ToolUse { .. },
    } ==> exists|k: u32| belongs_to(s, index, k)) by {
        if i < sent.len() {
            assert(all[i] == sent[i]);
        }
    }
    assert forall|index: nat, k: u32, l: u32|
        #[trigger] belongs_to(s, index, k) && #[trigger] belongs_to(s, index, l) implies k == l by {
        if k != l {
            assert(s.tools[k].block != s.tools[l].block);
        }
    }
}

// ---- what the events carry ----

/// The text that an event carries.
pub open spec fn event_text(event: EventView) -> Seq<char> {
    match event {
        EventView::TextDelta { text, .. } => text,
        _ => seq![],
    }
}

/// The text that the events carry, in order.
pub open spec fn sent_text(events: Seq<EventView>) -> Seq<char>
    decreases events.len(),
{
    if events.len() == 0 {
        seq![]
    } else {
        sent_text(events.drop_last()) + event_text(events.last())
    }
}

/// The arguments that an event carries for a block.
pub open spec fn event_arguments(event: EventView, block: nat) -> Seq<char> {
    match event {
        EventView::JsonDelta { index, partial_json } => if index == block {
            partial_json
        } else {
            seq![]
        },
        _ => seq![],
    }
}

/// The arguments that the events carry for a block, in order.
pub open spec fn sent_arguments(events: Seq<EventView>, block: nat) -> Seq<char>
    decreases events.len(),
{
    if events.len() == 0 {
        seq![]
    } else {
        sent_arguments(events.drop_last(), block) + event_arguments(events.last(), block)
    }
}

/// The estimated tokens of what an event carries.
pub open spec fn event_tokens(event: EventView) -> nat {
    match event {
        EventView::TextDelta { text, .. } => token_estimate(text),
        EventView::JsonDelta { partial_json, .. } => token_estimate(partial_json),
        _ => 0,
    }
}

/// The estimated tokens of what the events carry.
pub open spec fn sent_tokens(events: Seq<EventView>) -> nat
    decreases events.len(),
{
    if events.len() == 0 {
        0
    } else {
        sent_tokens(events.drop_last()) + event_tokens(events.last())
    }
}

/// The text of all chunks.
pub open spec fn received_text(chunks: Seq<ChunkView>) -> Seq<char>
    decreases chunks.len(),
{
    if chunks.len() == 0 {
        seq![]
    } else {
        received_text(chunks.drop_last()) + chunks.last().text
    }
}

/// The tool call deltas of all chunks.
pub open spec fn received_calls(chunks: Seq<ChunkView>) -> Seq<CallDeltaView>
    decreases chunks.len(),
{
    if chunks.len() == 0 {
        seq![]
    } else {
        received_calls(chunks.drop_last()) + chunks.last().calls
    }
}

/// The arguments that deltas give the tool call with index `k`.
pub open spec fn received_arguments(deltas: Seq<CallDeltaView>, k: u32) -> Seq<char>
    decreases deltas.len(),
{
    if deltas.len() == 0 {
        seq![]
    } else {
        received_arguments(deltas.drop_last(), k) + (if deltas.last().index == k {
            deltas.last().arguments
        } else {
            seq![]
        })
    }
}

proof fn lemma_sent_concat(a: Seq<EventView>, b: Seq<EventView>)
    ensures
        sent_text(a + b) == sent_text(a) + sent_text(b),
        sent_tokens(a + b) == sent_tokens(a) + sent_tokens(b),
        forall|block: nat| #[trigger]
            sent_arguments(a + b, block) == sent_arguments(a, block) + sent_arguments(b, block),
    decreases b.len(),
{
    if b.len() == 0 {
        assert(a + b =~= a);
        assert(sent_text(a) + seq![] =~= sent_text(a));
        assert forall|block: nat| #[trigger] sent_arguments(a + b, block) == sent_arguments(
            a,
            block,
        ) + sent_arguments(b, block) by {
            assert(sent_arguments(a, block) + seq![] =~= sent_arguments(a, block));
        }
    } else {
        lemma_sent_concat(a, b.drop_last());
        assert((a + b).drop_last() =~= a + b.drop_last());
        assert((a + b).last() == b.last());
        assert(sent_text(a + b) =~= sent_text(a) + sent_text(b));
        assert forall|block: nat| #[trigger] sent_arguments(a + b, block) == sent_arguments(
            a,
            block,
        ) + sent_arguments(b, block) by {
            assert(sent_arguments(a + b.drop_last(), block) == sent_arguments(a, block)
                + sent_arguments(b.drop_last(), block));
            assert(sent_arguments(a + b, block) =~= sent_arguments(a, block) + sent_arguments(
                b,
                block,
            ));
        }
    }
}

proof fn lemma_sent_push(a: Seq<EventView>, event: EventView)
    ensures
        sent_text(a.push(event)) == sent_text(a) + event_text(event),
        sent_tokens(a.push(event)) == sent_tokens(a) + event_tokens(event),
        forall|block: nat| #[trigger]
            sent_arguments(a.push(event), block) == sent_arguments(a, block) + event_arguments(
                event,
                block,
            ),
{
    assert(a.push(event).drop_last() =~= a);
}

proof fn lemma_sent_closing(s: StreamView)
    ensures
        sent_text(closing(s)).len() == 0,
        sent_tokens(closing(s)) == 0,
        forall|block: nat| #[trigger] sent_arguments(closing(s), block).len() == 0,
{
    if let Some((idx, _)) = s.current {
        lemma_sent_push(seq![], EventView::BlockStop { index: idx });
        assert(closing(s) =~= Seq::<EventView>::empty().push(EventView::BlockStop { index: idx }));
    }
}

proof fn lemma_sent_open(s: StreamView, block: HeaderView)
    ensures
        sent_text(open_step(s, block).1).len() == 0,
        sent_tokens(open_step(s, block).1) == 0,
        forall|b: nat| #[trigger] sent_arguments(open_step(s, block).1, b).len() == 0,
{
    lemma_sent_closing(s);
    lemma_sent_push(closing(s), EventView::BlockStart { index: s.next, block });
}

proof fn lemma_sent_text_step(s: StreamView, text: Seq<char>)
    ensures
        sent_text(text_step(s, text).1) == text,
        text_step(s, text).0.tokens == s.tokens + sent_tokens(text_step(s, text).1),
        forall|b: nat| #[trigger] sent_arguments(text_step(s, text).1, b).len() == 0,
{
    if text.len() > 0 {
        let (t, events) = match s.current {
            Some((_, BlockKind::Text)) => (s, seq![]),
            _ => open_step(s, HeaderView::Text),
        };
        lemma_sent_open(s, HeaderView::Text);
        lemma_sent_push(events, EventView::TextDelta { index: current_index(t)->0, text });
        assert(sent_text(text_step(s, text).1) =~= text);
    } else {
        assert(sent_text(text_step(s, text).1) =~= text);
    }
}

proof fn lemma_sent_arguments_step(s: StreamView, idx: nat, arguments: Seq<char>)
    ensures
        ({
            let (t, events) = arguments_step(s, idx, arguments);
            &&& sent_text(events).len() == 0
            &&& t.tokens == s.tokens + sent_tokens(events)
            &&& forall|b: nat| #[trigger]
                sent_arguments(events, b) == (if b == idx {
                    arguments
                } else {
                    seq![]
                })
        }),
{
    let event = EventView::JsonDelta { index: idx, partial_json: arguments };
    let before = if current_index(s) == Some(idx) {
        seq![]
    } else {
        closing(s)
    };
    lemma_sent_closing(s);
    lemma_sent_push(before, event);
    let events = arguments_step(s, idx, arguments).1;
    assert(events == before.push(event));
    assert forall|b: nat| #[trigger] sent_arguments(events, b) == (if b == idx {
        arguments
    } else {
        seq![]
    }) by {
        assert(sent_arguments(before, b).len() == 0);
        assert(sent_arguments(events, b) =~= event_arguments(event, b));
    }
}

/// The arguments that the events carry for the tool call with index `k`, which has
/// its block in the state `s`.
pub open spec fn sent_to(s: StreamView, events: Seq<EventView>, k: u32) -> Seq<char> {
    match tool_at(s, k).block {
        Some(block) => sent_arguments(events, block),
        None => seq![],
    }
}

/// On the way from `s` to `v`, on which the deltas arrived and the events were
/// sent, nothing was lost, added or sent twice.
pub open spec fn accounts(
    s: StreamView,
    v: StreamView,
    events: Seq<EventView>,
    deltas: Seq<CallDeltaView>,
) -> bool {
    &&& forall|k: u32|
        tool_at(s, k).pending + received_arguments(deltas, k) == #[trigger] sent_to(v, events, k)
            + tool_at(v, k).pending
    &&& forall|k: u32|
        tool_at(s, k).block is Some ==> #[trigger] tool_at(v, k).block == tool_at(s, k).block
    &&& forall|k: u32|
        tool_at(s, k).block is None && (#[trigger] tool_at(v, k)).block is Some ==> s.next
            <= tool_at(v, k).block->0
    &&& forall|b: nat| b >= v.next ==> #[trigger] sent_arguments(events, b).len() == 0
    &&& s.next <= v.next
    &&& v.tokens == s.tokens + sent_tokens(events)
}

proof fn lemma_received_concat(a: Seq<CallDeltaView>, b: Seq<CallDeltaView>, k: u32)
    ensures
        received_arguments(a + b, k) == received_arguments(a, k) + received_arguments(b, k),
    decreases b.len(),
{
    if b.len() == 0 {
        assert(a + b =~= a);
        assert(received_arguments(a, k) + seq![] =~= received_arguments(a, k));
    } else {
        lemma_received_concat(a, b.drop_last(), k);
        assert((a + b).drop_last() =~= a + b.drop_last());
        assert((a + b).last() == b.last());
        assert(received_arguments(a + b, k) =~= received_arguments(a, k) + received_arguments(
            b,
            k,
        ));
    }
}

proof fn lemma_accounts_nothing(s: StreamView, v: StreamView)
    requires
        v.tools == s.tools,
        v.next == s.next,
        v.tokens == s.tokens,
        consistent(s),
    ensures
        accounts(s, v, seq![], seq![]),
{
    assert forall|k: u32|
        tool_at(s, k).pending + received_arguments(seq![], k) == #[trigger] sent_to(v, seq![], k)
            + tool_at(v, k).pending by {
        assert(tool_at(s, k).pending + received_arguments(seq![], k) =~= sent_to(v, seq![], k)
            + tool_at(v, k).pending);
    }
}

proof fn lemma_accounts_compose(
    s: StreamView,
    t: StreamView,
    v: StreamView,
    e1: Seq<EventView>,
    e2: Seq<EventView>,
    d1: Seq<CallDeltaView>,
    d2: Seq<CallDeltaView>,
)
    requires
        consistent(t),
        accounts(s, t, e1, d1),
        accounts(t, v, e2, d2),
    ensures
        accounts(s, v, e1 + e2, d1 + d2),
{
    lemma_sent_concat(e1, e2);
    assert forall|k: u32|
        tool_at(s, k).pending + received_arguments(d1 + d2, k) == #[trigger] sent_to(
            v,
            e1 + e2,
            k,
        ) + tool_at(v, k).pending by {
        lemma_received_concat(d1, d2, k);
        let r1 = received_arguments(d1, k);
        let r2 = received_arguments(d2, k);
        assert(tool_at(s, k).pending + r1 == sent_to(t, e1, k) + tool_at(t, k).pending);
        assert(tool_at(t, k).pending + r2 == sent_to(v, e2, k) + tool_at(v, k).pending);
        assert(tool_at(s, k).pending + (r1 + r2) =~= (tool_at(s, k).pending + r1) + r2);
        match tool_at(t, k).block {
            Some(b) => {
                assert(tool_at(v, k).block == Some(b));
                assert(tool_at(t, k).pending.len() == 0);
                assert(sent_arguments(e1 + e2, b) == sent_arguments(e1, b) + sent_arguments(
                    e2,
                    b,
                ));
                assert((sent_arguments(e1, b) + tool_at(t, k).pending) + r2 =~= sent_arguments(
                    e1,
                    b,
                ) + (tool_at(t, k).pending + r2));
                assert(sent_arguments(e1, b) + (sent_arguments(e2, b) + tool_at(v, k).pending)
                    =~= (sent_arguments(e1, b) + sent_arguments(e2, b)) + tool_at(v, k).pending);
            },
            None => match tool_at(v, k).block {
                Some(b) => {
                    assert(sent_arguments(e1, b).len() == 0);
                    assert(sent_arguments(e1 + e2, b) =~= sent_arguments(e2, b));
                    assert(sent_to(t, e1, k) + tool_at(t, k).pending =~= tool_at(t, k).pending);
                },
                None => {
                    assert(sent_to(t, e1, k) + tool_at(t, k).pending =~= tool_at(t, k).pending);
                },
            },
        }
    }
    assert forall|b: nat| b >= v.next implies #[trigger] sent_arguments(e1 + e2, b).len() == 0 by {
        assert(sent_arguments(e1, b).len() == 0);
        assert(sent_arguments(e2, b).len() == 0);
    }
    assert forall|k: u32|
        tool_at(s, k).block is None && (#[trigger] tool_at(v, k)).block is Some implies s.next
        <= tool_at(v, k).block->0 by {
        if tool_at(t, k).block is Some {
            assert(tool_at(v, k).block == tool_at(t, k).block);
        }
    }
    assert forall|k: u32| tool_at(s, k).block is Some implies #[trigger] tool_at(v, k).block
        == tool_at(s, k).block by {
        assert(tool_at(t, k).block == tool_at(s, k).block);
    }
}

proof fn lemma_accounts_text(s: StreamView, text: Seq<char>)
    requires
        consistent(s),
    ensures
        accounts(s, text_step(s, text).0, text_step(s, text).1, seq![]),
{
    lemma_sent_text_step(s, text);
    let (v, events) = text_step(s, text);
    assert forall|k: u32|
        tool_at(s, k).pending + received_arguments(seq![], k) == #[trigger] sent_to(v, events, k)
            + tool_at(v, k).pending by {
        if let Some(b) = tool_at(v, k).block {
            assert(sent_arguments(events, b).len() == 0);
        }
        assert(tool_at(s, k).pending + received_arguments(seq![], k) =~= sent_to(v, events, k)
            + tool_at(v, k).pending);
    }
}

proof fn lemma_sent_call(s: StreamView, delta: CallDeltaView)
    requires
        consistent(s),
    ensures
        ({
            let (v, events) = call_step(s, delta);
            let k = delta.index;
            &&& sent_text(events).len() == 0
            &&& v.tokens == s.tokens + sent_tokens(events)
            &&& tool_at(s, k).pending + delta.arguments == sent_to(v, events, k) + tool_at(
                v,
                k,
            ).pending
            &&& forall|b: nat|
                tool_at(v, k).block != Some(b) ==> #[trigger] sent_arguments(events, b).len() == 0
        }),
{
    let k = delta.index;
    let start = tool_at(s, k);
    let tool = learn(start, delta);
    let (t, opened, announced) = announce_step(s, tool);
    let (u, known, passed) = pass_step(t, opened, delta.arguments);
    let (v, events) = call_step(s, delta);
    assert(tool_at(v, k) == known);
    assert(known.block == opened.block);
    // what announcing sends
    assert(sent_text(announced).len() == 0 && t.tokens == s.tokens + sent_tokens(announced) && (
    forall|b: nat| #[trigger]
        sent_arguments(announced, b) == (if tool.block is None && opened.block == Some(b) {
            tool.pending
        } else {
            seq![]
        }))) by {
        if tool.block is None && tool.id is Some && tool.name is Some {
            let header = HeaderView::ToolUse { id: tool.id->0, name: tool.name->0 };
            let (o, first) = open_step(s, header);
            lemma_sent_open(s, header);
            if tool.pending.len() > 0 {
                let more = arguments_step(o, s.next, tool.pending).1;
                lemma_sent_arguments_step(o, s.next, tool.pending);
                lemma_sent_concat(first, more);
                assert(sent_text(announced) =~= seq![]);
                assert forall|b: nat| #[trigger] sent_arguments(announced, b) == (if opened.block
                    == Some(b) {
                    tool.pending
                } else {
                    seq![]
                }) by {
                    assert(sent_arguments(first, b).len() == 0);
                    assert(sent_arguments(announced, b) =~= sent_arguments(more, b));
                }
            } else {
                assert forall|b: nat| #[trigger] sent_arguments(announced, b) == (if opened.block
                    == Some(b) {
                    tool.pending
                } else {
                    seq![]
                }) by {
                    assert(sent_arguments(first, b).len() == 0);
                    assert(sent_arguments(announced, b) =~= tool.pending);
                    assert(tool.pending =~= seq![]);
                }
            }
        }
    }
    // what passing on sends
    assert(sent_text(passed).len() == 0 && u.tokens == t.tokens + sent_tokens(passed) && (
    forall|b: nat| #[trigger]
        sent_arguments(passed, b) == (if opened.block == Some(b) {
            delta.arguments
        } else {
            seq![]
        }))) by {
        if delta.arguments.len() > 0 {
            if let Some(idx) = opened.block {
                lemma_sent_arguments_step(t, idx, delta.arguments);
            }
        } else {
            assert(delta.arguments =~= seq![]);
        }
    }
    lemma_sent_concat(announced, passed);
    assert forall|b: nat| tool_at(v, k).block != Some(b) implies #[trigger] sent_arguments(
        events,
        b,
    ).len() == 0 by {
        assert(sent_arguments(announced, b).len() == 0);
        assert(sent_arguments(passed, b).len() == 0);
    }
    assert(start.pending + delta.arguments =~= sent_to(v, events, k) + known.pending) by {
        if s.tools.contains_key(k) {
            assert(start == s.tools[k]);
        }
        match known.block {
            Some(b) => {
                assert(sent_arguments(events, b) == sent_arguments(announced, b) + sent_arguments(
                    passed,
                    b,
                ));
                if tool.block is Some {
                    assert(start.pending.len() == 0);
                }
            },
            None => {},
        }
    }
}

proof fn lemma_accounts_call(s: StreamView, delta: CallDeltaView)
    requires
        consistent(s),
    ensures
        accounts(s, call_step(s, delta).0, call_step(s, delta).1, seq![delta]),
{
    let (v, events) = call_step(s, delta);
    lemma_sent_call(s, delta);
    lemma_call_step_consistent(s, delta);
    assert(seq![delta].drop_last() =~= seq![]);
    assert forall|k: u32|
        tool_at(s, k).pending + received_arguments(seq![delta], k) == #[trigger] sent_to(
            v,
            events,
            k,
        ) + tool_at(v, k).pending by {
        assert(received_arguments(seq![], k) =~= seq![]);
        if k == delta.index {
            assert(received_arguments(seq![delta], k) =~= delta.arguments);
        } else {
            assert(received_arguments(seq![delta], k) =~= seq![]);
            assert(tool_at(v, k) == tool_at(s, k));
            if let Some(b) = tool_at(v, k).block {
                assert(v.tools.contains_key(k) && v.tools.contains_key(delta.index));
                assert(v.tools[k].block != v.tools[delta.index].block);
                assert(sent_arguments(events, b).len() == 0);
            }
            assert(tool_at(s, k).pending + received_arguments(seq![delta], k) =~= sent_to(
                v,
                events,
                k,
            ) + tool_at(v, k).pending);
        }
    }
    assert forall|b: nat| b >= v.next implies #[trigger] sent_arguments(events, b).len() == 0 by {
        assert(v.tools.contains_key(delta.index));
        assert(tool_at(v, delta.index).block != Some(b));
    }
    assert forall|k: u32| tool_at(s, k).block is Some implies #[trigger] tool_at(v, k).block
        == tool_at(s, k).block by {
        if k != delta.index {
            assert(tool_at(v, k) == tool_at(s, k));
        }
    }
    assert forall|k: u32|
        tool_at(s, k).block is None && (#[trigger] tool_at(v, k)).block is Some implies s.next
        <= tool_at(v, k).block->0 by {
        if k != delta.index {
            assert(tool_at(v, k) == tool_at(s, k));
        }
    }
}

proof fn lemma_accounts_calls(s: StreamView, deltas: Seq<CallDeltaView>)
    requires
        consistent(s),
    ensures
        accounts(s, calls_step(s, deltas).0, calls_step(s, deltas).1, deltas),
        sent_text(calls_step(s, deltas).1).len() == 0,
    decreases deltas.len(),
{
    if deltas.len() == 0 {
        lemma_accounts_nothing(s, s);
        assert(deltas =~= seq![]);
    } else {
        let before = deltas.drop_last();
        let last = deltas.last();
        let (t, events) = calls_step(s, before);
        let (v, more) = call_step(t, last);
        lemma_accounts_calls(s, before);
        lemma_calls_step_consistent(s, before);
        lemma_accounts_call(t, last);
        lemma_sent_call(t, last);
        lemma_accounts_compose(s, t, v, events, more, before, seq![last]);
        assert(before + seq![last] =~= deltas);
        lemma_sent_concat(events, more);
    }
}

proof fn lemma_accounts_chunk(s: StreamView, chunk: ChunkView)
    requires
        consistent(s),
    ensures
        accounts(s, chunk_step(s, chunk).0, chunk_step(s, chunk).1, chunk.calls),
        sent_text(chunk_step(s, chunk).1) == chunk.text,
{
    let (t, texts) = text_step(s, chunk.text);
    let (u, calls) = calls_step(t, chunk.calls);
    let v = chunk_step(s, chunk).0;
    lemma_text_step_consistent(s, chunk.text);
    lemma_calls_step_consistent(t, chunk.calls);
    lemma_accounts_text(s, chunk.text);
    lemma_accounts_calls(t, chunk.calls);
    lemma_accounts_compose(s, t, u, texts, calls, seq![], chunk.calls);
    assert(seq![] + chunk.calls =~= chunk.calls);
    lemma_accounts_nothing(u, v);
    lemma_accounts_compose(s, u, v, texts + calls, seq![], chunk.calls, seq![]);
    assert(chunk.calls + seq![] =~= chunk.calls);
    assert(texts + calls + seq![] =~= texts + calls);
    lemma_sent_text_step(s, chunk.text);
    lemma_sent_concat(texts, calls);
    assert(sent_text(texts + calls) =~= chunk.text);
}

proof fn lemma_accounts_run(chunks: Seq<ChunkView>)
    ensures
        accounts(
            initial(),
            run(initial(), chunks).0,
            run(initial(), chunks).1,
            received_calls(chunks),
        ),
        sent_text(run(initial(), chunks).1) == received_text(chunks),
    decreases chunks.len(),
{
    let s = initial();
    if chunks.len() == 0 {
        lemma_accounts_nothing(s, s);
    } else {
        let before = chunks.drop_last();
        let last = chunks.last();
        let (t, events) = run(s, before);
        let (v, more) = chunk_step(t, last);
        lemma_accounts_run(before);
        law_reachable_is_consistent(before);
        lemma_accounts_chunk(t, last);
        lemma_accounts_compose(s, t, v, events, more, received_calls(before), last.calls);
        lemma_sent_concat(events, more);
    }
}

/// The text deltas of a reply carry the text that arrived, in order and complete.
pub proof fn law_text_is_complete(
    id: Seq<char>,
    model: Seq<char>,
    input_tokens: nat,
    chunks: Seq<ChunkView>,
)
    ensures
        sent_text(middle(reply(id, model, input_tokens, chunks))) == received_text(chunks),
{
    let (s, events) = run(initial(), chunks);
    lemma_accounts_run(chunks);
    lemma_sent_closing(s);
    lemma_sent_concat(events, closing(s));
    assert(middle(reply(id, model, input_tokens, chunks)) =~= events + closing(s));
    assert(sent_text(events) + sent_text(closing(s)) =~= sent_text(events));
}

/// The deltas for the block of a tool call carry the arguments that arrived for
/// that call, in order and complete.
pub proof fn law_arguments_are_complete(
    id: Seq<char>,
    model: Seq<char>,
    input_tokens: nat,
    chunks: Seq<ChunkView>,
    k: u32,
)
    ensures
        ({
            let s = run(initial(), chunks).0;
            tool_at(s, k).block matches Some(block) ==> sent_arguments(
                middle(reply(id, model, input_tokens, chunks)),
                block,
            ) == received_arguments(received_calls(chunks), k)
        }),
{
    let (s, events) = run(initial(), chunks);
    lemma_accounts_run(chunks);
    law_reachable_is_consistent(chunks);
    lemma_sent_closing(s);
    lemma_sent_concat(events, closing(s));
    assert(middle(reply(id, model, input_tokens, chunks)) =~= events + closing(s));
    if let Some(block) = tool_at(s, k).block {
        assert(s.tools.contains_key(k));
        assert(sent_to(s, events, k) + tool_at(s, k).pending =~= sent_arguments(events, block));
        assert(unknown_tool().pending + received_arguments(received_calls(chunks), k)
            =~= received_arguments(received_calls(chunks), k));
        assert(tool_at(initial(), k) == unknown_tool());
        assert(sent_arguments(closing(s), block).len() == 0);
        assert(sent_arguments(events, block) + sent_arguments(closing(s), block)
            =~= sent_arguments(events, block));
    }
}

/// Arguments that arrive for a tool call whose id or name is never given are kept,
/// and not sent.
pub proof fn law_unannounced_arguments_wait(chunks: Seq<ChunkView>, k: u32)
    ensures
        ({
            let s = run(initial(), chunks).0;
            tool_at(s, k).block is None ==> tool_at(s, k).pending == received_arguments(
                received_calls(chunks),
                k,
            )
        }),
{
    let (s, events) = run(initial(), chunks);
    lemma_accounts_run(chunks);
    assert(tool_at(initial(), k) == unknown_tool());
    assert(unknown_tool().pending + received_arguments(received_calls(chunks), k)
        =~= received_arguments(received_calls(chunks), k));
    assert(tool_at(initial(), k).pending + received_arguments(received_calls(chunks), k) == sent_to(
        s,
        events,
        k,
    ) + tool_at(s, k).pending);
    if tool_at(s, k).block is None {
        assert(sent_to(s, events, k) + tool_at(s, k).pending =~= tool_at(s, k).pending);
    }
}

/// The token count of a reply is the estimate of what its deltas carry.
pub proof fn law_tokens_count_what_is_sent(
    id: Seq<char>,
    model: Seq<char>,
    input_tokens: nat,
    chunks: Seq<ChunkView>,
)
    ensures
        run(initial(), chunks).0.tokens == sent_tokens(
            middle(reply(id, model, input_tokens, chunks)),
        ),
{
    let (s, events) = run(initial(), chunks);
    lemma_accounts_run(chunks);
    lemma_sent_closing(s);
    lemma_sent_concat(events, closing(s));
    assert(middle(reply(id, model, input_tokens, chunks)) =~= events + closing(s));
}

// ---- which tool calls are announced ----

/// The id that deltas give the tool call with index `k`: the last one that is not
/// empty.
pub open spec fn given_id(deltas: Seq<CallDeltaView>, k: u32) -> Option<Seq<char>>
    decreases deltas.len(),
{
    if deltas.len() == 0 {
        None
    } else if deltas.last().index == k && deltas.last().id.len() > 0 {
        Some(deltas.last().id)
    } else {
        given_id(deltas.drop_last(), k)
    }
}

/// The name that deltas give the tool call with index `k`: the last one that is
/// not empty.
pub open spec fn given_name(deltas: Seq<CallDeltaView>, k: u32) -> Option<Seq<char>>
    decreases deltas.len(),
{
    if deltas.len() == 0 {
        None
    } else if deltas.last().index == k && deltas.last().name.len() > 0 {
        Some(deltas.last().name)
    } else {
        given_name(deltas.drop_last(), k)
    }
}

/// The second where there is one, and else the first.
pub open spec fn latest(first: Option<Seq<char>>, second: Option<Seq<char>>) -> Option<Seq<char>> {
    match second {
        Some(text) => Some(text),
        None => first,
    }
}

proof fn lemma_calls_step_learns(s: StreamView, deltas: Seq<CallDeltaView>, k: u32)
    ensures
        tool_at(calls_step(s, deltas).0, k).id == latest(tool_at(s, k).id, given_id(deltas, k)),
        tool_at(calls_step(s, deltas).0, k).name == latest(
            tool_at(s, k).name,
            given_name(deltas, k),
        ),
    decreases deltas.len(),
{
    if deltas.len() > 0 {
        lemma_calls_step_learns(s, deltas.drop_last(), k);
        let t = calls_step(s, deltas.drop_last()).0;
        let v = call_step(t, deltas.last()).0;
        if deltas.last().index != k {
            assert(tool_at(v, k) == tool_at(t, k));
        }
    }
}

proof fn lemma_given_concat(a: Seq<CallDeltaView>, b: Seq<CallDeltaView>, k: u32)
    ensures
        given_id(a + b, k) == latest(given_id(a, k), given_id(b, k)),
        given_name(a + b, k) == latest(given_name(a, k), given_name(b, k)),
    decreases b.len(),
{
    if b.len() == 0 {
        assert(a + b =~= a);
    } else {
        lemma_given_concat(a, b.drop_last(), k);
        assert((a + b).drop_last() =~= a + b.drop_last());
        assert((a + b).last() == b.last());
    }
}

proof fn lemma_run_learns(chunks: Seq<ChunkView>, k: u32)
    ensures
        tool_at(run(initial(), chunks).0, k).id == given_id(received_calls(chunks), k),
        tool_at(run(initial(), chunks).0, k).name == given_name(received_calls(chunks), k),
    decreases chunks.len(),
{
    if chunks.len() > 0 {
        let before = chunks.drop_last();
        let last = chunks.last();
        lemma_run_learns(before, k);
        let s = run(initial(), before).0;
        let t = text_step(s, last.text).0;
        assert(tool_at(t, k) == tool_at(s, k));
        lemma_calls_step_learns(t, last.calls, k);
        let u = calls_step(t, last.calls).0;
        assert(tool_at(chunk_step(s, last).0, k) == tool_at(u, k));
        lemma_given_concat(received_calls(before), last.calls, k);
    }
}

/// A tool call has a block exactly when both its id and its name have arrived.
pub proof fn law_announced_when_known(chunks: Seq<ChunkView>, k: u32)
    ensures
        tool_at(run(initial(), chunks).0, k).block is Some <==> {
            &&& given_id(received_calls(chunks), k) is Some
            &&& given_name(received_calls(chunks), k) is Some
        },
{
    lemma_run_learns(chunks, k);
    law_reachable_is_consistent(chunks);
    let s = run(initial(), chunks).0;
    if s.tools.contains_key(k) {
        assert(tool_at(s, k) == s.tools[k]);
    }
}

// ---- how a reply ends ----

/// The finish reason that chunks give: the last one.
pub open spec fn given_finish(chunks: Seq<ChunkView>) -> Option<Seq<char>>
    decreases chunks.len(),
{
    if chunks.len() == 0 {
        None
    } else {
        latest(given_finish(chunks.drop_last()), chunks.last().finish)
    }
}

proof fn lemma_calls_step_keeps_finish(s: StreamView, deltas: Seq<CallDeltaView>)
    ensures
        calls_step(s, deltas).0.finish == s.finish,
    decreases deltas.len(),
{
    if deltas.len() > 0 {
        lemma_calls_step_keeps_finish(s, deltas.drop_last());
    }
}

/// The stop reason of a reply stands for the last finish reason that arrived.
pub proof fn law_last_finish_reason_counts(
    id: Seq<char>,
    model: Seq<char>,
    input_tokens: nat,
    chunks: Seq<ChunkView>,
)
    ensures
        run(initial(), chunks).0.finish == given_finish(chunks),
        ({
            let events = reply(id, model, input_tokens, chunks);
            events[events.len() - 2] matches EventView::MessageDelta { stop_reason, .. }
                && stop_reason == stop_reason_or_default(given_finish(chunks))
        }),
    decreases chunks.len(),
{
    if chunks.len() > 0 {
        let before = chunks.drop_last();
        law_last_finish_reason_counts(id, model, input_tokens, before);
        let s = run(initial(), before).0;
        lemma_calls_step_keeps_finish(text_step(s, chunks.last().text).0, chunks.last().calls);
    }
    law_reply_frame(id, model, input_tokens, chunks);
}

/// Only what the machine cannot hold is too much.
pub proof fn law_only_the_machine_limits(s: StreamView)
    ensures
        fits(s) <==> s.next <= usize::MAX && s.tokens <= usize::MAX,
{
}

} // verus!
