//! The Anthropic messages schema, and how a stream of chat completion
//! chunks becomes a stream of message events and then one message.

use vstd::prelude::*;
use crate::chat::{ChatCompletionChunk, ChatCompletionChunkChoice, ChatCompletionDelta, ChatCompletionToolCallDelta};
use crate::models::owned;
use crate::text::{push_string_chars, str_eq, string_from_chars};

verus! {

/// Why the model stopped generating.
#[derive(Debug, Clone, Copy, PartialEq, Eq, Structural)]
pub enum StopReason {
    EndTurn,
    MaxTokens,
    StopSequence,
    ToolUse,
    PauseTurn,
    Refusal,
}

/// Token usage of a message.
#[derive(Debug, Clone, Copy, PartialEq, Eq, Structural, Default)]
pub struct Usage {
    /// Input tokens, excluding tokens read from or written to the cache.
    pub input_tokens: Option<u32>,
    pub output_tokens: u32,
    pub cache_creation_input_tokens: Option<u32>,
    pub cache_read_input_tokens: Option<u32>,
}

/// Input of a tool-use block: the empty object a block starts with, the
/// JSON text streamed so far, or the complete JSON text once it parsed.
#[derive(Debug, Clone, PartialEq, Eq)]
pub enum ToolInput {
    Empty,
    Partial(String),
    Parsed(String),
}

/// Content block of a message.
#[derive(Debug, Clone, PartialEq, Eq)]
pub enum ContentBlock {
    Text { text: String },
    Thinking { thinking: String, signature: String },
    ToolUse { id: String, name: String, input: ToolInput },
}

/// Streamed fragment of a content block.
#[derive(Debug, Clone, PartialEq, Eq)]
pub enum ContentBlockDelta {
    TextDelta { text: String },
    ThinkingDelta { thinking: String },
    InputJsonDelta { partial_json: String },
}

/// A message.
#[derive(Debug, Clone, PartialEq, Eq)]
pub struct Message {
    pub id: String,
    /// Object type, `message` (the `type` field on the wire).
    pub kind: String,
    pub role: String,
    pub content: Vec<ContentBlock>,
    pub model: String,
    pub stop_reason: Option<StopReason>,
    pub stop_sequence: Option<String>,
    pub usage: Usage,
}

/// Change to the top-level fields of a message.
#[derive(Debug, Clone, PartialEq, Eq)]
pub struct MessageDelta {
    pub stop_reason: Option<StopReason>,
    pub stop_sequence: Option<String>,
}

/// Event of a streamed message.
#[derive(Debug, Clone, PartialEq, Eq)]
pub enum RawMessageStreamEvent {
    MessageStart { message: Message },
    MessageDelta { delta: MessageDelta, usage: Usage },
    MessageStop,
    ContentBlockStart { index: usize, content_block: ContentBlock },
    ContentBlockDelta { index: usize, delta: ContentBlockDelta },
    ContentBlockStop { index: usize },
}

/// A tool-use input as plain values.
pub enum ToolInputV {
    Empty,
    Partial(Seq<char>),
    Parsed(Seq<char>),
}

/// A content block as plain values.
pub enum BlockV {
    Text(Seq<char>),
    Thinking(Seq<char>, Seq<char>),
    ToolUse(Seq<char>, Seq<char>, ToolInputV),
}

/// A content block fragment as plain values.
pub enum DeltaV {
    Text(Seq<char>),
    Thinking(Seq<char>),
    InputJson(Seq<char>),
}

/// A message as plain values.
pub struct MessageV {
    pub id: Seq<char>,
    pub kind: Seq<char>,
    pub role: Seq<char>,
    pub content: Seq<BlockV>,
    pub model: Seq<char>,
    pub stop_reason: Option<StopReason>,
    pub stop_sequence: Option<Seq<char>>,
    pub usage: Usage,
}

/// A message event as plain values.
pub enum EventV {
    MessageStart(MessageV),
    MessageDelta(Option<StopReason>, Option<Seq<char>>, Usage),
    MessageStop,
    ContentBlockStart(usize, BlockV),
    ContentBlockDelta(usize, DeltaV),
    ContentBlockStop(usize),
}

pub open spec fn opt_view(s: Option<String>) -> Option<Seq<char>> {
    match s {
        Some(t) => Some(t@),
        None => None,
    }
}

impl View for ToolInput {
    type V = ToolInputV;

    open spec fn view(&self) -> ToolInputV {
        match self {
            ToolInput::Empty => ToolInputV::Empty,
            ToolInput::Partial(s) => ToolInputV::Partial(s@),
            ToolInput::Parsed(s) => ToolInputV::Parsed(s@),
        }
    }
}

impl View for ContentBlock {
    type V = BlockV;

    open spec fn view(&self) -> BlockV {
        match self {
            ContentBlock::Text { text } => BlockV::Text(text@),
            ContentBlock::Thinking { thinking, signature } => BlockV::Thinking(thinking@, signature@),
            ContentBlock::ToolUse { id, name, input } => BlockV::ToolUse(id@, name@, input@),
        }
    }
}

impl View for ContentBlockDelta {
    type V = DeltaV;

    open spec fn view(&self) -> DeltaV {
        match self {
            ContentBlockDelta::TextDelta { text } => DeltaV::Text(text@),
            ContentBlockDelta::ThinkingDelta { thinking } => DeltaV::Thinking(thinking@),
            ContentBlockDelta::InputJsonDelta { partial_json } => DeltaV::InputJson(partial_json@),
        }
    }
}

/// The views of `blocks`.
pub open spec fn blocks_view(blocks: Seq<ContentBlock>) -> Seq<BlockV> {
    blocks.map_values(|b: ContentBlock| b@)
}

impl View for Message {
    type V = MessageV;

    open spec fn view(&self) -> MessageV {
        MessageV {
            id: self.id@,
            kind: self.kind@,
            role: self.role@,
            content: blocks_view(self.content@),
            model: self.model@,
            stop_reason: self.stop_reason,
            stop_sequence: opt_view(self.stop_sequence),
            usage: self.usage,
        }
    }
}

impl View for RawMessageStreamEvent {
    type V = EventV;

    open spec fn view(&self) -> EventV {
        match self {
            RawMessageStreamEvent::MessageStart { message } => EventV::MessageStart(message@),
            RawMessageStreamEvent::MessageDelta { delta, usage } => EventV::MessageDelta(
                delta.stop_reason,
                opt_view(delta.stop_sequence),
                *usage,
            ),
            RawMessageStreamEvent::MessageStop => EventV::MessageStop,
            RawMessageStreamEvent::ContentBlockStart { index, content_block } => EventV::ContentBlockStart(
                *index,
                content_block@,
            ),
            RawMessageStreamEvent::ContentBlockDelta { index, delta } => EventV::ContentBlockDelta(*index, delta@),
            RawMessageStreamEvent::ContentBlockStop { index } => EventV::ContentBlockStop(*index),
        }
    }
}

/// The views of `events`.
pub open spec fn events_view(events: Seq<RawMessageStreamEvent>) -> Seq<EventV> {
    events.map_values(|e: RawMessageStreamEvent| e@)
}

impl RawMessageStreamEvent {
    /// The event's type tag on the wire.
    pub fn event_type(&self) -> (r: &'static str)
        ensures
            r@ == match self {
                RawMessageStreamEvent::MessageStart { .. } => "message_start"@,
                RawMessageStreamEvent::MessageDelta { .. } => "message_delta"@,
                RawMessageStreamEvent::MessageStop => "message_stop"@,
                RawMessageStreamEvent::ContentBlockStart { .. } => "content_block_start"@,
                RawMessageStreamEvent::ContentBlockDelta { .. } => "content_block_delta"@,
                RawMessageStreamEvent::ContentBlockStop { .. } => "content_block_stop"@,
            },
    {
        match self {
            RawMessageStreamEvent::MessageStart { .. } => "message_start",
            RawMessageStreamEvent::MessageDelta { .. } => "message_delta",
            RawMessageStreamEvent::MessageStop => "message_stop",
            RawMessageStreamEvent::ContentBlockStart { .. } => "content_block_start",
            RawMessageStreamEvent::ContentBlockDelta { .. } => "content_block_delta",
            RawMessageStreamEvent::ContentBlockStop { .. } => "content_block_stop",
        }
    }
}

/// The stop reason that an OpenAI finish reason stands for.
pub open spec fn stop_reason_of(finish_reason: Seq<char>) -> StopReason {
    if finish_reason == "length"@ {
        StopReason::MaxTokens
    } else if finish_reason == "content_filter"@ {
        StopReason::Refusal
    } else if finish_reason == "tool_calls"@ {
        StopReason::ToolUse
    } else {
        StopReason::EndTurn
    }
}

/// Maps an OpenAI finish reason to an Anthropic stop reason.
pub fn map_finish_reason(finish_reason: &str) -> (r: StopReason)
    ensures
        r == stop_reason_of(finish_reason@),
{
    if str_eq(finish_reason, "length") {
        StopReason::MaxTokens
    } else if str_eq(finish_reason, "content_filter") {
        StopReason::Refusal
    } else if str_eq(finish_reason, "tool_calls") {
        StopReason::ToolUse
    } else {
        StopReason::EndTurn
    }
}

/// Kind of content block being streamed.
#[derive(Debug, Clone, PartialEq, Eq)]
pub enum BlockKind {
    Thinking,
    Text,
    /// Tool-use block; its id and name arrive on the first tool call fragment.
    ToolUse { id: String, name: String },
}

/// A block kind as plain values.
pub enum KindV {
    Thinking,
    Text,
    ToolUse(Seq<char>, Seq<char>),
}

impl View for BlockKind {
    type V = KindV;

    open spec fn view(&self) -> KindV {
        match self {
            BlockKind::Thinking => KindV::Thinking,
            BlockKind::Text => KindV::Text,
            BlockKind::ToolUse { id, name } => KindV::ToolUse(id@, name@),
        }
    }
}

/// The block a kind of block starts with.
pub open spec fn empty_block_of(kind: KindV) -> BlockV {
    match kind {
        KindV::Thinking => BlockV::Thinking(Seq::empty(), Seq::empty()),
        KindV::Text => BlockV::Text(Seq::empty()),
        KindV::ToolUse(id, name) => BlockV::ToolUse(id, name, ToolInputV::Empty),
    }
}

/// The fragment of a kind of block that carries `fragment`.
pub open spec fn delta_of(kind: KindV, fragment: Seq<char>) -> DeltaV {
    match kind {
        KindV::Thinking => DeltaV::Thinking(fragment),
        KindV::Text => DeltaV::Text(fragment),
        KindV::ToolUse(_, _) => DeltaV::InputJson(fragment),
    }
}

impl BlockKind {
    /// The empty block that a block of this kind starts as.
    pub fn empty_block(&self) -> (r: ContentBlock)
        ensures
            r@ == empty_block_of(self@),
    {
        match self {
            BlockKind::Thinking => ContentBlock::Thinking { thinking: String::new(), signature: String::new() },
            BlockKind::Text => ContentBlock::Text { text: String::new() },
            BlockKind::ToolUse { id, name } => ContentBlock::ToolUse {
                id: id.clone(),
                name: name.clone(),
                input: ToolInput::Empty,
            },
        }
    }

    /// The fragment of a block of this kind that carries `fragment`.
    pub fn delta(&self, fragment: &str) -> (r: ContentBlockDelta)
        ensures
            r@ == delta_of(self@, fragment@),
    {
        match self {
            BlockKind::Thinking => ContentBlockDelta::ThinkingDelta { thinking: owned(fragment) },
            BlockKind::Text => ContentBlockDelta::TextDelta { text: owned(fragment) },
            BlockKind::ToolUse { .. } => ContentBlockDelta::InputJsonDelta { partial_json: owned(fragment) },
        }
    }
}


/// The state of a message event stream as plain values.
pub struct StreamV {
    pub started: bool,
    pub block_idx: usize,
    pub kind: Option<KindV>,
    pub stop_reason: StopReason,
    pub usage: Usage,
}

/// The views of an optional block kind.
pub open spec fn kind_opt_view(k: Option<BlockKind>) -> Option<KindV> {
    match k {
        Some(b) => Some(b@),
        None => None,
    }
}

/// The state before any chunk.
pub open spec fn initial_stream() -> StreamV {
    StreamV {
        started: false,
        block_idx: 0,
        kind: None,
        stop_reason: StopReason::EndTurn,
        usage: Usage { input_tokens: None, output_tokens: 0, cache_creation_input_tokens: None, cache_read_input_tokens: None },
    }
}

/// The message that the first chunk starts.
pub open spec fn start_message_of(chunk: ChatCompletionChunk) -> MessageV {
    MessageV {
        id: chunk.id@,
        kind: "message"@,
        role: "assistant"@,
        content: Seq::empty(),
        model: chunk.model@,
        stop_reason: None,
        stop_sequence: None,
        usage: Usage { input_tokens: Some(0), output_tokens: 0, cache_creation_input_tokens: None, cache_read_input_tokens: None },
    }
}

pub open spec fn or_zero(x: Option<u32>) -> nat {
    match x {
        Some(v) => v as nat,
        None => 0,
    }
}

/// Tokens read from the cache, as a chunk reports them.
pub open spec fn cache_read_of(u: crate::chat::ChatCompletionUsage) -> Option<u32> {
    match u.prompt_tokens_details {
        Some(d) => d.cached_tokens,
        None => None,
    }
}

/// Tokens written to the cache, as a chunk reports them.
pub open spec fn cache_write_of(u: crate::chat::ChatCompletionUsage) -> Option<u32> {
    match u.prompt_tokens_details {
        Some(d) => d.cache_write_tokens,
        None => None,
    }
}

/// The usage after a chunk reports `reported`: input tokens are the prompt
/// tokens less the cached ones (at least zero), output tokens add up, and
/// the cache counts are the last reported.
pub open spec fn usage_after(u: Usage, reported: Option<crate::chat::ChatCompletionUsage>) -> Usage {
    match reported {
        None => u,
        Some(c) => {
            let cached = or_zero(cache_read_of(c)) + or_zero(cache_write_of(c));
            Usage {
                input_tokens: Some(if c.prompt_tokens >= cached { (c.prompt_tokens - cached) as u32 } else { 0u32 }),
                output_tokens: (u.output_tokens + c.completion_tokens) as u32,
                cache_creation_input_tokens: cache_write_of(c),
                cache_read_input_tokens: cache_read_of(c),
            }
        },
    }
}

/// Ends the open block, if any, and starts a block of `kind`.
pub open spec fn open_block_v(s: StreamV, kind: KindV) -> (StreamV, Seq<EventV>) {
    let (idx, stops) = if s.kind is Some {
        ((s.block_idx + 1) as usize, seq![EventV::ContentBlockStop(s.block_idx)])
    } else {
        (s.block_idx, Seq::empty())
    };
    (
        StreamV { block_idx: idx, kind: Some(kind), ..s },
        stops.push(EventV::ContentBlockStart(idx, empty_block_of(kind))),
    )
}

/// Streams a reasoning or content fragment: a nonempty fragment goes to a
/// block of its kind, which starts when the open block is of another kind.
pub open spec fn text_step(s: StreamV, kind: KindV, fragment: Option<String>) -> (StreamV, Seq<EventV>) {
    match fragment {
        Some(f) => if f@.len() == 0 {
            (s, Seq::empty())
        } else {
            let (s1, e1) = if s.kind == Some(kind) {
                (s, Seq::empty())
            } else {
                open_block_v(s, kind)
            };
            (s1, e1.push(EventV::ContentBlockDelta(s1.block_idx, delta_of(kind, f@))))
        },
        None => (s, Seq::empty()),
    }
}

/// The function name of a tool call fragment, empty when absent.
pub open spec fn fragment_name(f: ChatCompletionToolCallDelta) -> Seq<char> {
    match f.function {
        Some(func) => match func.name {
            Some(n) => n@,
            None => Seq::empty(),
        },
        None => Seq::empty(),
    }
}

/// The arguments of a tool call fragment.
pub open spec fn fragment_arguments(f: ChatCompletionToolCallDelta) -> Option<String> {
    match f.function {
        Some(func) => func.arguments,
        None => None,
    }
}

/// Streams a tool call fragment: one carrying an id starts a tool-use
/// block; nonempty arguments stream as input JSON while a tool-use block
/// is open.
pub open spec fn tool_step(s: StreamV, f: ChatCompletionToolCallDelta) -> (StreamV, Seq<EventV>) {
    let (s1, e1) = match f.id {
        Some(id) => open_block_v(s, KindV::ToolUse(id@, fragment_name(f))),
        None => (s, Seq::empty()),
    };
    match fragment_arguments(f) {
        Some(a) => if a@.len() > 0 && s1.kind matches Some(KindV::ToolUse(_, _)) {
            (s1, e1.push(EventV::ContentBlockDelta(s1.block_idx, DeltaV::InputJson(a@))))
        } else {
            (s1, e1)
        },
        None => (s1, e1),
    }
}

/// Streams the tool call fragments `fs` in order.
pub open spec fn tool_steps(s: StreamV, fs: Seq<ChatCompletionToolCallDelta>) -> (StreamV, Seq<EventV>)
    decreases fs.len(),
{
    if fs.len() == 0 {
        (s, Seq::empty())
    } else {
        let (s1, e1) = tool_steps(s, fs.drop_last());
        let (s2, e2) = tool_step(s1, fs.last());
        (s2, e1 + e2)
    }
}

/// The state after the message start and usage of a chunk.
pub open spec fn chunk_head(s: StreamV, chunk: ChatCompletionChunk) -> (StreamV, Seq<EventV>) {
    let (s0, e0) = if !s.started {
        (StreamV { started: true, ..s }, seq![EventV::MessageStart(start_message_of(chunk))])
    } else {
        (s, Seq::empty())
    };
    (StreamV { usage: usage_after(s0.usage, chunk.usage), ..s0 }, e0)
}

/// The state after the finish reason of the first choice of a chunk.
pub open spec fn with_finish(s: StreamV, choice: ChatCompletionChunkChoice) -> StreamV {
    match choice.finish_reason {
        Some(r) => StreamV { stop_reason: stop_reason_of(r@), ..s },
        None => s,
    }
}

/// Streams the fragments of a delta: reasoning, then content, then tool calls.
pub open spec fn delta_step(s: StreamV, d: ChatCompletionDelta) -> (StreamV, Seq<EventV>) {
    let (s1, e1) = text_step(s, KindV::Thinking, d.reasoning_content);
    let (s2, e2) = text_step(s1, KindV::Text, d.content);
    match d.tool_calls {
        Some(tc) => {
            let (s3, e3) = tool_steps(s2, tc@);
            (s3, e1 + e2 + e3)
        },
        None => (s2, e1 + e2),
    }
}

/// The events of one chunk and the state after it: the message start on
/// the first chunk, then the fragments of its first choice.
pub open spec fn chunk_step(s: StreamV, chunk: ChatCompletionChunk) -> (StreamV, Seq<EventV>) {
    let (s1, e1) = chunk_head(s, chunk);
    if chunk.choices@.len() == 0 {
        (s1, e1)
    } else {
        let s2 = with_finish(s1, chunk.choices@[0]);
        match chunk.choices@[0].delta {
            Some(d) => {
                let (s3, e3) = delta_step(s2, d);
                (s3, e1 + e3)
            },
            None => (s2, e1),
        }
    }
}

/// The events that end a stream: the open block ends, then the message
/// delta with the stop reason and usage, then the message stop.
pub open spec fn finish_events_v(s: StreamV) -> Seq<EventV> {
    let stops = if s.kind is Some {
        seq![EventV::ContentBlockStop(s.block_idx)]
    } else {
        Seq::empty()
    };
    stops + seq![EventV::MessageDelta(Some(s.stop_reason), None, s.usage), EventV::MessageStop]
}

/// The number of tool call fragments of the first choice of a chunk.
pub open spec fn tool_fragment_count(chunk: ChatCompletionChunk) -> nat {
    if chunk.choices@.len() == 0 {
        0
    } else {
        match chunk.choices@[0].delta {
            Some(d) => match d.tool_calls {
                Some(tc) => tc@.len(),
                None => 0,
            },
            None => 0,
        }
    }
}

/// The counters of state `s` take chunk `chunk` without overflow.
pub open spec fn chunk_fits(s: StreamV, chunk: ChatCompletionChunk) -> bool {
    &&& s.block_idx + 2 + tool_fragment_count(chunk) <= usize::MAX
    &&& chunk.usage matches Some(c) ==> {
        &&& or_zero(cache_read_of(c)) + or_zero(cache_write_of(c)) <= u32::MAX
        &&& s.usage.output_tokens + c.completion_tokens <= u32::MAX
    }
}

/// The state after the chunks `chunks`.
pub open spec fn stream_state(chunks: Seq<ChatCompletionChunk>) -> StreamV
    decreases chunks.len(),
{
    if chunks.len() == 0 {
        initial_stream()
    } else {
        chunk_step(stream_state(chunks.drop_last()), chunks.last()).0
    }
}

/// The events of the chunks `chunks`, before the stream ends.
pub open spec fn stream_events(chunks: Seq<ChatCompletionChunk>) -> Seq<EventV>
    decreases chunks.len(),
{
    if chunks.len() == 0 {
        Seq::empty()
    } else {
        stream_events(chunks.drop_last()) + chunk_step(stream_state(chunks.drop_last()), chunks.last()).1
    }
}

/// Every chunk of `chunks` fits the state before it.
pub open spec fn stream_fits(chunks: Seq<ChatCompletionChunk>) -> bool
    decreases chunks.len(),
{
    chunks.len() > 0 ==> (stream_fits(chunks.drop_last()) && chunk_fits(
        stream_state(chunks.drop_last()),
        chunks.last(),
    ))
}

/// The state of a stream of message events made from chat completion chunks.
pub struct MessageEventState {
    started: bool,
    block_idx: usize,
    block_kind: Option<BlockKind>,
    stop_reason: StopReason,
    usage: Usage,
}

impl View for MessageEventState {
    type V = StreamV;

    closed spec fn view(&self) -> StreamV {
        StreamV {
            started: self.started,
            block_idx: self.block_idx,
            kind: kind_opt_view(self.block_kind),
            stop_reason: self.stop_reason,
            usage: self.usage,
        }
    }
}

/// Whether the open block is of kind `kind`.
fn is_open_kind(open: &Option<BlockKind>, kind: &BlockKind) -> (r: bool)
    ensures
        r == (kind_opt_view(*open) == Some(kind@)),
{
    match (open, kind) {
        (Some(BlockKind::Thinking), BlockKind::Thinking) => true,
        (Some(BlockKind::Text), BlockKind::Text) => true,
        (Some(BlockKind::ToolUse { id: a, name: b }), BlockKind::ToolUse { id: c, name: d }) => {
            let same = *a == *c && *b == *d;
            proof {
                if kind_opt_view(*open) == Some(kind@) {
                    assert(a@ == c@ && b@ == d@);
                }
            }
            same
        },
        _ => false,
    }
}

impl MessageEventState {
    /// The state before any chunk.
    pub fn new() -> (r: Self)
        ensures
            r@ == initial_stream(),
    {
        MessageEventState {
            started: false,
            block_idx: 0,
            block_kind: None,
            stop_reason: StopReason::EndTurn,
            usage: Usage { input_tokens: None, output_tokens: 0, cache_creation_input_tokens: None, cache_read_input_tokens: None },
        }
    }

    fn open_block(&mut self, kind: BlockKind, events: &mut Vec<RawMessageStreamEvent>)
        requires
            old(self).block_idx < usize::MAX,
        ensures
            final(self)@ == open_block_v(old(self)@, kind@).0,
            events_view(final(events)@) == events_view(old(events)@) + open_block_v(old(self)@, kind@).1,
    {
        let ghost start = events@;
        let ghost s = self@;
        if self.block_kind.is_some() {
            events.push(RawMessageStreamEvent::ContentBlockStop { index: self.block_idx });
            self.block_idx = self.block_idx + 1;
        }
        let block = kind.empty_block();
        events.push(RawMessageStreamEvent::ContentBlockStart { index: self.block_idx, content_block: block });
        self.block_kind = Some(kind);
        proof {
            let ev = open_block_v(s, kind@).1;
            assert(events_view(events@) =~= events_view(start) + ev);
        }
    }

    fn push_text(&mut self, kind: BlockKind, fragment: &Option<String>, events: &mut Vec<RawMessageStreamEvent>)
        requires
            old(self).block_idx < usize::MAX,
            kind@ is Thinking || kind@ is Text,
        ensures
            final(self)@ == text_step(old(self)@, kind@, *fragment).0,
            events_view(final(events)@) == events_view(old(events)@) + text_step(old(self)@, kind@, *fragment).1,
            final(self).block_idx <= old(self).block_idx + 1,
    {
        let ghost start = events@;
        let ghost s = self@;
        match fragment {
            Some(f) => {
                if f.as_str().is_empty() {
                    assert(events_view(events@) =~= events_view(start) + Seq::<EventV>::empty());
                    return;
                }
                if !is_open_kind(&self.block_kind, &kind) {
                    let k2 = match &kind {
                        BlockKind::Thinking => BlockKind::Thinking,
                        _ => BlockKind::Text,
                    };
                    self.open_block(k2, events);
                }
                let ghost mid = events@;
                let delta = kind.delta(f.as_str());
                events.push(RawMessageStreamEvent::ContentBlockDelta { index: self.block_idx, delta });
                proof {
                    assert(events_view(events@) =~= events_view(mid).push(events@.last()@));
                }
            },
            None => {
                assert(events_view(events@) =~= events_view(start) + Seq::<EventV>::empty());
            },
        }
    }

    fn push_tool(&mut self, f: &ChatCompletionToolCallDelta, events: &mut Vec<RawMessageStreamEvent>)
        requires
            old(self).block_idx < usize::MAX,
        ensures
            final(self)@ == tool_step(old(self)@, *f).0,
            events_view(final(events)@) == events_view(old(events)@) + tool_step(old(self)@, *f).1,
            final(self).block_idx <= old(self).block_idx + 1,
    {
        let ghost start = events@;
        let ghost s = self@;
        match &f.id {
            Some(id) => {
                let name = match &f.function {
                    Some(func) => match &func.name {
                        Some(n) => n.clone(),
                        None => String::new(),
                    },
                    None => String::new(),
                };
                self.open_block(BlockKind::ToolUse { id: id.clone(), name }, events);
            },
            None => {
                assert(events_view(events@) =~= events_view(start) + Seq::<EventV>::empty());
            },
        }
        let ghost mid = events@;
        let tool_open = match &self.block_kind {
            Some(BlockKind::ToolUse { .. }) => true,
            _ => false,
        };
        match &f.function {
            Some(func) => match &func.arguments {
                Some(a) => {
                    if !a.as_str().is_empty() && tool_open {
                        events.push(RawMessageStreamEvent::ContentBlockDelta {
                            index: self.block_idx,
                            delta: ContentBlockDelta::InputJsonDelta { partial_json: a.clone() },
                        });
                        assert(events_view(events@) =~= events_view(mid).push(events@.last()@));
                    }
                },
                None => {},
            },
            None => {},
        }
    }

    fn push_head(&mut self, chunk: &ChatCompletionChunk) -> (events: Vec<RawMessageStreamEvent>)
        requires
            chunk_fits(old(self)@, *chunk),
        ensures
            final(self)@ == chunk_head(old(self)@, *chunk).0,
            events_view(events@) == chunk_head(old(self)@, *chunk).1,
    {
        let ghost s = self@;
        let mut events: Vec<RawMessageStreamEvent> = Vec::new();
        if !self.started {
            events.push(RawMessageStreamEvent::MessageStart {
                message: Message {
                    id: chunk.id.clone(),
                    kind: owned("message"),
                    role: owned("assistant"),
                    content: Vec::new(),
                    model: chunk.model.clone(),
                    stop_reason: None,
                    stop_sequence: None,
                    usage: Usage {
                        input_tokens: Some(0),
                        output_tokens: 0,
                        cache_creation_input_tokens: None,
                        cache_read_input_tokens: None,
                    },
                },
            });
            self.started = true;
            proof {
                assert(blocks_view(Seq::<ContentBlock>::empty()) =~= Seq::<BlockV>::empty());
                assert(events_view(events@) =~= seq![EventV::MessageStart(start_message_of(*chunk))]);
            }
        } else {
            assert(events_view(events@) =~= Seq::<EventV>::empty());
        }
        match &chunk.usage {
            Some(u) => {
                let (cache_read, cache_write) = match &u.prompt_tokens_details {
                    Some(d) => (d.cached_tokens, d.cache_write_tokens),
                    None => (None, None),
                };
                let read_count: u32 = match cache_read {
                    Some(v) => v,
                    None => 0,
                };
                let write_count: u32 = match cache_write {
                    Some(v) => v,
                    None => 0,
                };
                let cached = read_count + write_count;
                self.usage = Usage {
                    input_tokens: Some(u.prompt_tokens.saturating_sub(cached)),
                    output_tokens: self.usage.output_tokens + u.completion_tokens,
                    cache_creation_input_tokens: cache_write,
                    cache_read_input_tokens: cache_read,
                };
            },
            None => {},
        }
        events
    }

    fn push_tools(&mut self, tc: &Vec<ChatCompletionToolCallDelta>, events: &mut Vec<RawMessageStreamEvent>)
        requires
            old(self).block_idx + tc@.len() <= usize::MAX,
        ensures
            final(self)@ == tool_steps(old(self)@, tc@).0,
            events_view(final(events)@) == events_view(old(events)@) + tool_steps(old(self)@, tc@).1,
    {
        let ghost s = self@;
        let ghost before_tools = events_view(events@);
        let mut j: usize = 0;
        assert(tc@.take(0) =~= Seq::<ChatCompletionToolCallDelta>::empty());
        assert(before_tools + Seq::<EventV>::empty() =~= before_tools);
        while j < tc.len()
            invariant
                j <= tc.len(),
                s.block_idx + tc@.len() <= usize::MAX,
                self@ == tool_steps(s, tc@.take(j as int)).0,
                events_view(events@) == before_tools + tool_steps(s, tc@.take(j as int)).1,
                self.block_idx <= s.block_idx + j,
            decreases tc.len() - j,
        {
            proof {
                assert(tc@.take(j + 1).drop_last() =~= tc@.take(j as int));
            }
            self.push_tool(&tc[j], events);
            j = j + 1;
            proof {
                let prev = tool_steps(s, tc@.take(j - 1));
                assert(events_view(events@) =~= before_tools + (prev.1 + tool_step(prev.0, tc@[j - 1]).1));
            }
        }
        assert(tc@.take(tc.len() as int) =~= tc@);
    }

    fn push_delta(&mut self, d: &ChatCompletionDelta, events: &mut Vec<RawMessageStreamEvent>)
        requires
            old(self).block_idx + 2 + (match d.tool_calls {
                Some(tc) => tc@.len(),
                None => 0,
            }) <= usize::MAX,
        ensures
            final(self)@ == delta_step(old(self)@, *d).0,
            events_view(final(events)@) == events_view(old(events)@) + delta_step(old(self)@, *d).1,
    {
        let ghost s = self@;
        let ghost start = events_view(events@);
        self.push_text(BlockKind::Thinking, &d.reasoning_content, events);
        let ghost t1 = text_step(s, KindV::Thinking, d.reasoning_content);
        self.push_text(BlockKind::Text, &d.content, events);
        let ghost t2 = text_step(t1.0, KindV::Text, d.content);
        match &d.tool_calls {
            Some(tc) => {
                self.push_tools(tc, events);
                proof {
                    let t3 = tool_steps(t2.0, tc@);
                    assert(events_view(events@) =~= start + (t1.1 + t2.1 + t3.1));
                }
            },
            None => {
                assert(events_view(events@) =~= start + (t1.1 + t2.1));
            },
        }
    }

    /// Takes the next chunk of the stream and gives the events it makes.
    pub fn push_chunk(&mut self, chunk: &ChatCompletionChunk) -> (events: Vec<RawMessageStreamEvent>)
        requires
            chunk_fits(old(self)@, *chunk),
        ensures
            final(self)@ == chunk_step(old(self)@, *chunk).0,
            events_view(events@) == chunk_step(old(self)@, *chunk).1,
    {
        let ghost s = self@;
        let mut events = self.push_head(chunk);
        let ghost head = chunk_head(s, *chunk);
        if chunk.choices.len() == 0 {
            return events;
        }
        let choice = &chunk.choices[0];
        match &choice.finish_reason {
            Some(r) => {
                self.stop_reason = map_finish_reason(r.as_str());
            },
            None => {},
        }
        assert(self@ == with_finish(head.0, chunk.choices@[0]));
        match &choice.delta {
            Some(d) => {
                self.push_delta(d, &mut events);
            },
            None => {},
        }
        events
    }

    /// The events that end the stream.
    pub fn finish(&self) -> (events: Vec<RawMessageStreamEvent>)
        ensures
            events_view(events@) == finish_events_v(self@),
    {
        let mut events: Vec<RawMessageStreamEvent> = Vec::new();
        if self.block_kind.is_some() {
            events.push(RawMessageStreamEvent::ContentBlockStop { index: self.block_idx });
        }
        events.push(RawMessageStreamEvent::MessageDelta {
            delta: MessageDelta { stop_reason: Some(self.stop_reason), stop_sequence: None },
            usage: self.usage,
        });
        events.push(RawMessageStreamEvent::MessageStop);
        assert(events_view(events@) =~= finish_events_v(self@));
        events
    }

}


proof fn lemma_stream_fits_prefix(chunks: Seq<ChatCompletionChunk>, n: int)
    requires
        0 <= n <= chunks.len(),
        stream_fits(chunks),
    ensures
        stream_fits(chunks.take(n)),
    decreases chunks.len(),
{
    if n == chunks.len() {
        assert(chunks.take(n) =~= chunks);
    } else {
        lemma_stream_fits_prefix(chunks.drop_last(), n);
        assert(chunks.drop_last().take(n) =~= chunks.take(n));
    }
}

/// The message events of a whole stream of chat completion chunks: the
/// message start, the content blocks with their fragments in order, the
/// message delta with the stop reason and usage, and the message stop.
pub fn events_from_chunks(chunks: &[ChatCompletionChunk]) -> (events: Vec<RawMessageStreamEvent>)
    requires
        stream_fits(chunks@),
    ensures
        events_view(events@) == stream_events(chunks@) + finish_events_v(stream_state(chunks@)),
{
    let mut state = MessageEventState::new();
    let mut events: Vec<RawMessageStreamEvent> = Vec::new();
    let mut i: usize = 0;
    assert(chunks@.take(0) =~= Seq::<ChatCompletionChunk>::empty());
    assert(events_view(events@) =~= Seq::<EventV>::empty());
    while i < chunks.len()
        invariant
            i <= chunks.len(),
            stream_fits(chunks@),
            state@ == stream_state(chunks@.take(i as int)),
            events_view(events@) == stream_events(chunks@.take(i as int)),
        decreases chunks.len() - i,
    {
        proof {
            lemma_stream_fits_prefix(chunks@, i + 1);
            assert(chunks@.take(i + 1).drop_last() =~= chunks@.take(i as int));
        }
        let ghost before = events_view(events@);
        let mut step = state.push_chunk(&chunks[i]);
        events.append(&mut step);
        i = i + 1;
        proof {
            assert(events_view(events@) =~= stream_events(chunks@.take(i as int)));
        }
    }
    assert(chunks@.take(chunks.len() as int) =~= chunks@);
    let ghost before = events_view(events@);
    let mut tail = state.finish();
    events.append(&mut tail);
    assert(events_view(events@) =~= before + finish_events_v(state@));
    events
}

/// Whether `text` is one JSON document, as `serde_json` reads it.
pub uninterp spec fn parses_as_json(text: Seq<char>) -> bool;

/// Calls `serde_json::from_str` for a `serde_json::Value` and reports
/// whether it succeeded; its contract names the outcome `parses_as_json`,
/// a function of the text alone.
#[verifier::external_body]
fn is_json(text: &str) -> (r: bool)
    ensures
        r == parses_as_json(text@),
{
    serde_json::from_str::<serde_json::Value>(text).is_ok()
}

/// A block after fragment `d`: text and thinking grow by the fragment; a
/// tool-use input grows its JSON text, or starts it when it held none.
/// A fragment of another kind leaves the block unchanged.
pub open spec fn apply_delta_v(b: BlockV, d: DeltaV) -> BlockV {
    match b {
        BlockV::Text(t) => match d {
            DeltaV::Text(f) => BlockV::Text(t + f),
            _ => b,
        },
        BlockV::Thinking(t, sig) => match d {
            DeltaV::Thinking(f) => BlockV::Thinking(t + f, sig),
            _ => b,
        },
        BlockV::ToolUse(id, name, input) => match d {
            DeltaV::InputJson(f) => BlockV::ToolUse(
                id,
                name,
                match input {
                    ToolInputV::Partial(buf) => ToolInputV::Partial(buf + f),
                    _ => ToolInputV::Partial(f),
                },
            ),
            _ => b,
        },
    }
}

/// A block once it ends: a tool-use input streamed as JSON text becomes
/// the parsed input, or the empty object when the text does not parse.
pub open spec fn close_block_v(b: BlockV) -> BlockV {
    match b {
        BlockV::ToolUse(id, name, ToolInputV::Partial(buf)) => BlockV::ToolUse(
            id,
            name,
            if parses_as_json(buf) {
                ToolInputV::Parsed(buf)
            } else {
                ToolInputV::Empty
            },
        ),
        _ => b,
    }
}

/// The usage of a message after a message delta: reported input tokens
/// replace the held ones; the other counts are replaced.
pub open spec fn usage_after_delta(held: Usage, reported: Usage) -> Usage {
    Usage {
        input_tokens: if reported.input_tokens is Some {
            reported.input_tokens
        } else {
            held.input_tokens
        },
        output_tokens: reported.output_tokens,
        cache_creation_input_tokens: reported.cache_creation_input_tokens,
        cache_read_input_tokens: reported.cache_read_input_tokens,
    }
}

/// The message after event `e`. A message start sets it; the other events
/// change a message already started, and block events whose index has no
/// block leave it unchanged.
pub open spec fn apply_event_v(m: Option<MessageV>, e: EventV) -> Option<MessageV> {
    match e {
        EventV::MessageStart(msg) => Some(msg),
        EventV::ContentBlockStart(_, block) => match m {
            Some(msg) => Some(MessageV { content: msg.content.push(block), ..msg }),
            None => None,
        },
        EventV::ContentBlockDelta(i, d) => match m {
            Some(msg) => if i < msg.content.len() {
                Some(MessageV { content: msg.content.update(i as int, apply_delta_v(msg.content[i as int], d)), ..msg })
            } else {
                m
            },
            None => None,
        },
        EventV::ContentBlockStop(i) => match m {
            Some(msg) => if i < msg.content.len() {
                Some(MessageV { content: msg.content.update(i as int, close_block_v(msg.content[i as int])), ..msg })
            } else {
                m
            },
            None => None,
        },
        EventV::MessageDelta(stop_reason, stop_sequence, usage) => match m {
            Some(msg) => Some(
                MessageV { stop_reason, stop_sequence, usage: usage_after_delta(msg.usage, usage), ..msg },
            ),
            None => None,
        },
        EventV::MessageStop => m,
    }
}

/// The view of an optional message.
pub open spec fn message_opt_view(m: Option<Message>) -> Option<MessageV> {
    match m {
        Some(msg) => Some(msg@),
        None => None,
    }
}

/// `a` followed by `b`.
fn concat(a: &String, b: &String) -> (r: String)
    ensures
        r@ == a@ + b@,
{
    let mut v: Vec<char> = Vec::new();
    push_string_chars(&mut v, a);
    push_string_chars(&mut v, b);
    string_from_chars(v.as_slice())
}

/// Applies a fragment to a block.
fn apply_delta(block: ContentBlock, delta: &ContentBlockDelta) -> (r: ContentBlock)
    ensures
        r@ == apply_delta_v(block@, delta@),
{
    match (block, delta) {
        (ContentBlock::Text { text }, ContentBlockDelta::TextDelta { text: fragment }) => {
            ContentBlock::Text { text: concat(&text, fragment) }
        },
        (ContentBlock::Thinking { thinking, signature }, ContentBlockDelta::ThinkingDelta { thinking: fragment }) => {
            ContentBlock::Thinking { thinking: concat(&thinking, fragment), signature }
        },
        (ContentBlock::ToolUse { id, name, input }, ContentBlockDelta::InputJsonDelta { partial_json }) => {
            let input = match input {
                ToolInput::Partial(buffer) => ToolInput::Partial(concat(&buffer, partial_json)),
                _ => ToolInput::Partial(partial_json.clone()),
            };
            ContentBlock::ToolUse { id, name, input }
        },
        (block, _) => block,
    }
}

/// Ends a block: a tool-use input streamed as JSON text is parsed.
fn close_block(block: ContentBlock) -> (r: ContentBlock)
    ensures
        r@ == close_block_v(block@),
{
    match block {
        ContentBlock::ToolUse { id, name, input: ToolInput::Partial(buffer) } => {
            let input = if is_json(buffer.as_str()) {
                ToolInput::Parsed(buffer)
            } else {
                ToolInput::Empty
            };
            ContentBlock::ToolUse { id, name, input }
        },
        block => block,
    }
}

/// Accumulates a message stream event into the message.
pub fn apply_event(message: &mut Option<Message>, event: RawMessageStreamEvent)
    ensures
        message_opt_view(*final(message)) == apply_event_v(message_opt_view(*old(message)), event@),
{
    let ghost e = event@;
    match event {
        RawMessageStreamEvent::MessageStart { message: started } => {
            *message = Some(started);
        },
        RawMessageStreamEvent::MessageStop => {},
        other => {
            let current = message.take();
            match current {
                Some(mut msg) => {
                    let ghost before = msg@;
                    match other {
                        RawMessageStreamEvent::ContentBlockStart { content_block, .. } => {
                            msg.content.push(content_block);
                            assert(blocks_view(msg.content@) =~= before.content.push(content_block@));
                        },
                        RawMessageStreamEvent::ContentBlockDelta { index, delta } => {
                            if index < msg.content.len() {
                                let block = msg.content.remove(index);
                                let updated = apply_delta(block, &delta);
                                msg.content.insert(index, updated);
                                assert(blocks_view(msg.content@) =~= before.content.update(
                                    index as int,
                                    apply_delta_v(before.content[index as int], delta@),
                                ));
                            }
                        },
                        RawMessageStreamEvent::ContentBlockStop { index } => {
                            if index < msg.content.len() {
                                let block = msg.content.remove(index);
                                let updated = close_block(block);
                                msg.content.insert(index, updated);
                                assert(blocks_view(msg.content@) =~= before.content.update(
                                    index as int,
                                    close_block_v(before.content[index as int]),
                                ));
                            }
                        },
                        RawMessageStreamEvent::MessageDelta { delta, usage } => {
                            msg.stop_reason = delta.stop_reason;
                            msg.stop_sequence = delta.stop_sequence;
                            if usage.input_tokens.is_some() {
                                msg.usage.input_tokens = usage.input_tokens;
                            }
                            msg.usage.output_tokens = usage.output_tokens;
                            msg.usage.cache_creation_input_tokens = usage.cache_creation_input_tokens;
                            msg.usage.cache_read_input_tokens = usage.cache_read_input_tokens;
                        },
                        _ => {},
                    }
                    *message = Some(msg);
                },
                None => {},
            }
        },
    }
}

/// The message after the events `es`, starting from `m`.
pub open spec fn fold_events(m: Option<MessageV>, es: Seq<EventV>) -> Option<MessageV>
    decreases es.len(),
{
    if es.len() == 0 {
        m
    } else {
        apply_event_v(fold_events(m, es.drop_last()), es.last())
    }
}

proof fn lemma_fold_append(m: Option<MessageV>, a: Seq<EventV>, b: Seq<EventV>)
    ensures
        fold_events(m, a + b) == fold_events(fold_events(m, a), b),
    decreases b.len(),
{
    if b.len() == 0 {
        assert(a + b =~= a);
    } else {
        lemma_fold_append(m, a, b.drop_last());
        assert((a + b).drop_last() =~= a + b.drop_last());
    }
}

/// The usage a started message holds until the stream ends.
pub open spec fn start_usage() -> Usage {
    Usage { input_tokens: Some(0), output_tokens: 0, cache_creation_input_tokens: None, cache_read_input_tokens: None }
}

/// What the events of a stream in state `s` have made of the message `m`
/// that started from `first`: the started message, with one block per
/// block started.
pub open spec fn accumulated(s: StreamV, m: Option<MessageV>, first: ChatCompletionChunk) -> bool {
    if !s.started {
        m is None && s.block_idx == 0 && s.kind is None
    } else {
        m matches Some(msg) && {
            &&& msg.id == first.id@
            &&& msg.kind == "message"@
            &&& msg.role == "assistant"@
            &&& msg.model == first.model@
            &&& msg.stop_reason is None
            &&& msg.stop_sequence is None
            &&& msg.usage == start_usage()
            &&& if s.kind is Some {
                msg.content.len() == s.block_idx + 1
            } else {
                s.block_idx == 0 && msg.content.len() == 0
            }
        }
    }
}

proof fn lemma_fold_one(m: Option<MessageV>, a: EventV)
    ensures
        fold_events(m, seq![a]) == apply_event_v(m, a),
{
    assert(seq![a].drop_last() =~= Seq::<EventV>::empty());
    assert(fold_events(m, Seq::<EventV>::empty()) == m);
    assert(seq![a].last() == a);
}

proof fn lemma_fold_push(m: Option<MessageV>, es: Seq<EventV>, a: EventV)
    ensures
        fold_events(m, es.push(a)) == apply_event_v(fold_events(m, es), a),
{
    assert(es.push(a).drop_last() =~= es);
}

/// A block event addresses the block held at its index.
proof fn lemma_open_block_accumulates(s: StreamV, m: Option<MessageV>, first: ChatCompletionChunk, kind: KindV)
    requires
        accumulated(s, m, first),
        s.started,
        s.block_idx < usize::MAX,
    ensures
        accumulated(open_block_v(s, kind).0, fold_events(m, open_block_v(s, kind).1), first),
{
    let (s1, es) = open_block_v(s, kind);
    let start = EventV::ContentBlockStart(s1.block_idx, empty_block_of(kind));
    if s.kind is Some {
        let stop = EventV::ContentBlockStop(s.block_idx);
        assert(es =~= seq![stop].push(start));
        lemma_fold_one(m, stop);
        lemma_fold_push(m, seq![stop], start);
    } else {
        assert(es =~= seq![start]);
        lemma_fold_one(m, start);
    }
}

proof fn lemma_text_step_accumulates(s: StreamV, m: Option<MessageV>, first: ChatCompletionChunk, kind: KindV, fragment: Option<String>)
    requires
        accumulated(s, m, first),
        s.started,
        s.block_idx < usize::MAX,
    ensures
        accumulated(text_step(s, kind, fragment).0, fold_events(m, text_step(s, kind, fragment).1), first),
{
    match fragment {
        Some(f) => {
            if f@.len() > 0 {
                let (s1, e1) = if s.kind == Some(kind) {
                    (s, Seq::<EventV>::empty())
                } else {
                    open_block_v(s, kind)
                };
                if s.kind != Some(kind) {
                    lemma_open_block_accumulates(s, m, first, kind);
                }
                let es = text_step(s, kind, fragment).1;
                assert(es == e1.push(EventV::ContentBlockDelta(s1.block_idx, delta_of(kind, f@))));
                lemma_fold_push(m, e1, EventV::ContentBlockDelta(s1.block_idx, delta_of(kind, f@)));
            }
        },
        None => {},
    }
}

proof fn lemma_tool_step_accumulates(s: StreamV, m: Option<MessageV>, first: ChatCompletionChunk, f: ChatCompletionToolCallDelta)
    requires
        accumulated(s, m, first),
        s.started,
        s.block_idx < usize::MAX,
    ensures
        accumulated(tool_step(s, f).0, fold_events(m, tool_step(s, f).1), first),
{
    let (s1, e1) = match f.id {
        Some(id) => open_block_v(s, KindV::ToolUse(id@, fragment_name(f))),
        None => (s, Seq::<EventV>::empty()),
    };
    match f.id {
        Some(id) => lemma_open_block_accumulates(s, m, first, KindV::ToolUse(id@, fragment_name(f))),
        None => {},
    }
    let es = tool_step(s, f).1;
    match fragment_arguments(f) {
        Some(a) => {
            if a@.len() > 0 && s1.kind matches Some(KindV::ToolUse(_, _)) {
                lemma_fold_push(m, e1, EventV::ContentBlockDelta(s1.block_idx, DeltaV::InputJson(a@)));
            }
        },
        None => {},
    }
}

proof fn lemma_tool_steps_accumulate(s: StreamV, m: Option<MessageV>, first: ChatCompletionChunk, fs: Seq<ChatCompletionToolCallDelta>)
    requires
        accumulated(s, m, first),
        s.started,
        s.block_idx + fs.len() <= usize::MAX,
    ensures
        accumulated(tool_steps(s, fs).0, fold_events(m, tool_steps(s, fs).1), first),
        tool_steps(s, fs).0.started,
        tool_steps(s, fs).0.block_idx <= s.block_idx + fs.len(),
    decreases fs.len(),
{
    if fs.len() > 0 {
        lemma_tool_steps_accumulate(s, m, first, fs.drop_last());
        let (s1, e1) = tool_steps(s, fs.drop_last());
        lemma_tool_step_accumulates(s1, fold_events(m, e1), first, fs.last());
        lemma_fold_append(m, e1, tool_step(s1, fs.last()).1);
    }
}

proof fn lemma_chunk_step_accumulates(s: StreamV, m: Option<MessageV>, first: ChatCompletionChunk, chunk: ChatCompletionChunk)
    requires
        accumulated(s, m, first),
        chunk_fits(s, chunk),
        !s.started ==> chunk == first,
    ensures
        accumulated(chunk_step(s, chunk).0, fold_events(m, chunk_step(s, chunk).1), first),
        chunk_step(s, chunk).0.started,
{
    let (s1, e1) = chunk_head(s, chunk);
    if !s.started {
        lemma_fold_one(m, EventV::MessageStart(start_message_of(chunk)));
    } else {
        assert(e1 =~= Seq::<EventV>::empty());
    }
    let m1 = fold_events(m, e1);
    assert(accumulated(s1, m1, first));
    if chunk.choices@.len() > 0 {
        let s2 = with_finish(s1, chunk.choices@[0]);
        assert(accumulated(s2, m1, first));
        match chunk.choices@[0].delta {
            Some(d) => {
                let (t1s, t1e) = text_step(s2, KindV::Thinking, d.reasoning_content);
                lemma_text_step_accumulates(s2, m1, first, KindV::Thinking, d.reasoning_content);
                let m2 = fold_events(m1, t1e);
                assert(t1s.block_idx <= s2.block_idx + 1);
                let (t2s, t2e) = text_step(t1s, KindV::Text, d.content);
                lemma_text_step_accumulates(t1s, m2, first, KindV::Text, d.content);
                let m3 = fold_events(m2, t2e);
                assert(t2s.block_idx <= t1s.block_idx + 1);
                lemma_fold_append(m, e1, t1e);
                lemma_fold_append(m, e1 + t1e, t2e);
                match d.tool_calls {
                    Some(tc) => {
                        lemma_tool_steps_accumulate(t2s, m3, first, tc@);
                        lemma_fold_append(m, e1 + t1e + t2e, tool_steps(t2s, tc@).1);
                        assert(e1 + (t1e + t2e + tool_steps(t2s, tc@).1) =~= e1 + t1e + t2e + tool_steps(t2s, tc@).1);
                    },
                    None => {
                        assert(e1 + (t1e + t2e) =~= e1 + t1e + t2e);
                    },
                }
            },
            None => {},
        }
    }
}

proof fn lemma_stream_accumulates(chunks: Seq<ChatCompletionChunk>)
    requires
        chunks.len() > 0,
        stream_fits(chunks),
    ensures
        accumulated(stream_state(chunks), fold_events(None, stream_events(chunks)), chunks[0]),
        stream_state(chunks).started,
    decreases chunks.len(),
{
    let init = chunks.drop_last();
    if init.len() == 0 {
        assert(stream_state(init) == initial_stream());
        assert(accumulated(initial_stream(), None, chunks[0]));
        assert(stream_events(init) =~= Seq::<EventV>::empty());
        lemma_chunk_step_accumulates(initial_stream(), None, chunks[0], chunks.last());
        assert(stream_events(chunks) =~= chunk_step(initial_stream(), chunks.last()).1);
    } else {
        lemma_stream_accumulates(init);
        assert(init[0] == chunks[0]);
        lemma_chunk_step_accumulates(stream_state(init), fold_events(None, stream_events(init)), chunks[0], chunks.last());
        lemma_fold_append(None, stream_events(init), chunk_step(stream_state(init), chunks.last()).1);
    }
}

/// Accumulating the message events of a nonempty chunk stream gives one
/// message: it has the first chunk's id and model, one content block per
/// block the stream started, the stream's stop reason, and its usage,
/// where input tokens stay zero until a chunk reports them.
pub proof fn lemma_events_accumulate_to_message(chunks: Seq<ChatCompletionChunk>)
    requires
        chunks.len() > 0,
        stream_fits(chunks),
    ensures
        ({
            let s = stream_state(chunks);
            let m = fold_events(None, stream_events(chunks) + finish_events_v(s));
            m matches Some(msg) && {
                &&& msg.id == chunks[0].id@
                &&& msg.kind == "message"@
                &&& msg.role == "assistant"@
                &&& msg.model == chunks[0].model@
                &&& msg.content.len() == if s.kind is Some { s.block_idx + 1 } else { 0 }
                &&& msg.stop_reason == Some(s.stop_reason)
                &&& msg.stop_sequence is None
                &&& msg.usage == usage_after_delta(start_usage(), s.usage)
            }
        }),
{
    let s = stream_state(chunks);
    lemma_stream_accumulates(chunks);
    let m = fold_events(None, stream_events(chunks));
    lemma_fold_append(None, stream_events(chunks), finish_events_v(s));
    let delta = EventV::MessageDelta(Some(s.stop_reason), None, s.usage);
    let tail = seq![delta].push(EventV::MessageStop);
    lemma_fold_one(m, delta);
    if s.kind is Some {
        let stop = seq![EventV::ContentBlockStop(s.block_idx)];
        assert(finish_events_v(s) =~= stop + tail);
        lemma_fold_append(m, stop, tail);
        lemma_fold_one(m, EventV::ContentBlockStop(s.block_idx));
        let m1 = fold_events(m, stop);
        lemma_fold_one(m1, delta);
        lemma_fold_push(m1, seq![delta], EventV::MessageStop);
    } else {
        assert(finish_events_v(s) =~= tail);
        lemma_fold_push(m, seq![delta], EventV::MessageStop);
    }
}


/// The texts `fs` joined, in order.
pub open spec fn joined(fs: Seq<Seq<char>>) -> Seq<char>
    decreases fs.len(),
{
    if fs.len() == 0 {
        Seq::empty()
    } else {
        joined(fs.drop_last()) + fs.last()
    }
}

/// Input JSON deltas of fragments `fs` to block `i`.
pub open spec fn input_json_deltas(i: usize, fs: Seq<Seq<char>>) -> Seq<EventV> {
    fs.map_values(|f: Seq<char>| EventV::ContentBlockDelta(i, DeltaV::InputJson(f)))
}

proof fn lemma_input_json_deltas(msg: MessageV, i: usize, id: Seq<char>, name: Seq<char>, fs: Seq<Seq<char>>)
    requires
        i < msg.content.len(),
        msg.content[i as int] == BlockV::ToolUse(id, name, ToolInputV::Empty),
    ensures
        fold_events(Some(msg), input_json_deltas(i, fs)) == Some(
            MessageV {
                content: msg.content.update(
                    i as int,
                    BlockV::ToolUse(id, name, if fs.len() == 0 { ToolInputV::Empty } else { ToolInputV::Partial(joined(fs)) }),
                ),
                ..msg
            },
        ),
    decreases fs.len(),
{
    if fs.len() == 0 {
        assert(msg.content.update(i as int, BlockV::ToolUse(id, name, ToolInputV::Empty)) =~= msg.content);
    } else {
        lemma_input_json_deltas(msg, i, id, name, fs.drop_last());
        assert(input_json_deltas(i, fs).drop_last() =~= input_json_deltas(i, fs.drop_last()));
        let before = if fs.drop_last().len() == 0 { ToolInputV::Empty } else { ToolInputV::Partial(joined(fs.drop_last())) };
        let c1 = msg.content.update(i as int, BlockV::ToolUse(id, name, before));
        if fs.drop_last().len() == 0 {
            assert(joined(fs.drop_last()) =~= Seq::<char>::empty());
            assert(joined(fs) =~= fs.last());
        }
        let after = BlockV::ToolUse(id, name, ToolInputV::Partial(joined(fs)));
        assert(apply_delta_v(c1[i as int], DeltaV::InputJson(fs.last())) == after);
        assert(c1.update(i as int, after) =~= msg.content.update(i as int, after));
    }
}

/// Input JSON deltas to a tool-use block that starts without input, then
/// that block's stop, give the block the fragments joined: parsed when the
/// text parses as JSON, the empty object otherwise and when no fragment
/// came. Every other block and field of the message stays as it was.
pub proof fn lemma_tool_input_accumulates(msg: MessageV, i: usize, id: Seq<char>, name: Seq<char>, fs: Seq<Seq<char>>)
    requires
        i < msg.content.len(),
        msg.content[i as int] == BlockV::ToolUse(id, name, ToolInputV::Empty),
    ensures
        fold_events(Some(msg), input_json_deltas(i, fs).push(EventV::ContentBlockStop(i))) == Some(
            MessageV {
                content: msg.content.update(
                    i as int,
                    BlockV::ToolUse(
                        id,
                        name,
                        if fs.len() > 0 && parses_as_json(joined(fs)) {
                            ToolInputV::Parsed(joined(fs))
                        } else {
                            ToolInputV::Empty
                        },
                    ),
                ),
                ..msg
            },
        ),
{
    lemma_input_json_deltas(msg, i, id, name, fs);
    let es = input_json_deltas(i, fs).push(EventV::ContentBlockStop(i));
    assert(es.drop_last() =~= input_json_deltas(i, fs));
    let mid = if fs.len() == 0 { ToolInputV::Empty } else { ToolInputV::Partial(joined(fs)) };
    let c1 = msg.content.update(i as int, BlockV::ToolUse(id, name, mid));
    let fin = BlockV::ToolUse(
        id,
        name,
        if fs.len() > 0 && parses_as_json(joined(fs)) { ToolInputV::Parsed(joined(fs)) } else { ToolInputV::Empty },
    );
    assert(close_block_v(c1[i as int]) == fin);
    assert(c1.update(i as int, fin) =~= msg.content.update(i as int, fin));
}

/// The stop reason of a stream: that of the last finish reason on a
/// chunk's first choice, `EndTurn` when none came.
pub open spec fn stream_stop_reason(chunks: Seq<ChatCompletionChunk>) -> StopReason
    decreases chunks.len(),
{
    if chunks.len() == 0 {
        StopReason::EndTurn
    } else if chunks.last().choices@.len() > 0 && chunks.last().choices@[0].finish_reason is Some {
        stop_reason_of(chunks.last().choices@[0].finish_reason.unwrap()@)
    } else {
        stream_stop_reason(chunks.drop_last())
    }
}

/// The completion tokens that the chunks report, summed.
pub open spec fn completion_total(chunks: Seq<ChatCompletionChunk>) -> nat
    decreases chunks.len(),
{
    if chunks.len() == 0 {
        0
    } else {
        completion_total(chunks.drop_last()) + match chunks.last().usage {
            Some(c) => c.completion_tokens as nat,
            None => 0,
        }
    }
}

/// The last usage that a chunk reports.
pub open spec fn last_usage(chunks: Seq<ChatCompletionChunk>) -> Option<crate::chat::ChatCompletionUsage>
    decreases chunks.len(),
{
    if chunks.len() == 0 {
        None
    } else if chunks.last().usage is Some {
        chunks.last().usage
    } else {
        last_usage(chunks.drop_last())
    }
}

/// The usage of a stream: output tokens summed over the chunks; input
/// tokens (prompt tokens less cached ones, at least zero) and cache counts
/// from the last chunk that reports usage, none before one does.
pub open spec fn stream_usage(chunks: Seq<ChatCompletionChunk>) -> Usage {
    match last_usage(chunks) {
        None => Usage {
            input_tokens: None,
            output_tokens: completion_total(chunks) as u32,
            cache_creation_input_tokens: None,
            cache_read_input_tokens: None,
        },
        Some(c) => {
            let cached = or_zero(cache_read_of(c)) + or_zero(cache_write_of(c));
            Usage {
                input_tokens: Some(if c.prompt_tokens >= cached { (c.prompt_tokens - cached) as u32 } else { 0u32 }),
                output_tokens: completion_total(chunks) as u32,
                cache_creation_input_tokens: cache_write_of(c),
                cache_read_input_tokens: cache_read_of(c),
            }
        },
    }
}

proof fn lemma_tool_steps_keep(s: StreamV, fs: Seq<ChatCompletionToolCallDelta>)
    ensures
        tool_steps(s, fs).0.stop_reason == s.stop_reason,
        tool_steps(s, fs).0.usage == s.usage,
    decreases fs.len(),
{
    if fs.len() > 0 {
        lemma_tool_steps_keep(s, fs.drop_last());
    }
}

proof fn lemma_delta_step_keeps(s: StreamV, d: ChatCompletionDelta)
    ensures
        delta_step(s, d).0.stop_reason == s.stop_reason,
        delta_step(s, d).0.usage == s.usage,
{
    let (s1, e1) = text_step(s, KindV::Thinking, d.reasoning_content);
    let (s2, e2) = text_step(s1, KindV::Text, d.content);
    if let Some(tc) = d.tool_calls {
        lemma_tool_steps_keep(s2, tc@);
    }
}

/// The message delta that ends a stream carries the stream's stop reason
/// (the last finish reason, else `EndTurn`) and its usage: output tokens
/// summed over all chunks, input tokens and cache counts from the last
/// chunk that reports usage.
pub proof fn lemma_stream_stop_and_usage(chunks: Seq<ChatCompletionChunk>)
    requires
        stream_fits(chunks),
    ensures
        stream_state(chunks).stop_reason == stream_stop_reason(chunks),
        stream_state(chunks).usage == stream_usage(chunks),
        completion_total(chunks) <= u32::MAX,
        ({
            let f = finish_events_v(stream_state(chunks));
            f[f.len() - 2] == EventV::MessageDelta(Some(stream_stop_reason(chunks)), None, stream_usage(chunks))
        }),
    decreases chunks.len(),
{
    if chunks.len() > 0 {
        let prev = chunks.drop_last();
        let c = chunks.last();
        lemma_stream_stop_and_usage(prev);
        let s = stream_state(prev);
        let (s1, e1) = chunk_head(s, c);
        if c.choices@.len() > 0 {
            let s2 = with_finish(s1, c.choices@[0]);
            if let Some(d) = c.choices@[0].delta {
                lemma_delta_step_keeps(s2, d);
            }
        }
        assert(stream_state(chunks).usage == usage_after(s.usage, c.usage));
        assert(stream_state(chunks).usage == stream_usage(chunks));
    }
    let f = finish_events_v(stream_state(chunks));
    assert(f[f.len() - 2] == EventV::MessageDelta(Some(stream_state(chunks).stop_reason), None, stream_state(chunks).usage));
}

/// What the events of a message stream have shown so far: whether they
/// still follow the stream's structure, whether the message started, how
/// many blocks started, whether the last one is open, and whether the
/// message delta and the message stop came.
pub struct BlockTrace {
    pub ok: bool,
    pub started: bool,
    pub next: nat,
    pub open: bool,
    pub ended: bool,
    pub stopped: bool,
}

/// The trace of no events.
pub open spec fn empty_trace() -> BlockTrace {
    BlockTrace { ok: true, started: false, next: 0, open: false, ended: false, stopped: false }
}

/// The trace after event `e`: the message starts once and first; block
/// `k` starts only as the next block, once the one before stopped; deltas
/// and the stop of a block come while it is the open one; the message
/// delta comes once no block is open, then the message stop, then nothing.
pub open spec fn trace_step(t: BlockTrace, e: EventV) -> BlockTrace {
    let bad = BlockTrace { ok: false, ..t };
    if !t.ok {
        t
    } else {
        match e {
            EventV::MessageStart(_) => if !t.started {
                BlockTrace { started: true, ..t }
            } else {
                bad
            },
            EventV::ContentBlockStart(i, _) => if t.started && !t.ended && !t.open && i == t.next {
                BlockTrace { next: t.next + 1, open: true, ..t }
            } else {
                bad
            },
            EventV::ContentBlockDelta(i, _) => if t.started && !t.ended && t.open && i + 1 == t.next {
                t
            } else {
                bad
            },
            EventV::ContentBlockStop(i) => if t.started && !t.ended && t.open && i + 1 == t.next {
                BlockTrace { open: false, ..t }
            } else {
                bad
            },
            EventV::MessageDelta(_, _, _) => if t.started && !t.ended && !t.open {
                BlockTrace { ended: true, ..t }
            } else {
                bad
            },
            EventV::MessageStop => if t.ended && !t.stopped {
                BlockTrace { stopped: true, ..t }
            } else {
                bad
            },
        }
    }
}

/// The trace after the events `es`.
pub open spec fn trace_of(t: BlockTrace, es: Seq<EventV>) -> BlockTrace
    decreases es.len(),
{
    if es.len() == 0 {
        t
    } else {
        trace_step(trace_of(t, es.drop_last()), es.last())
    }
}

proof fn lemma_trace_append(t: BlockTrace, a: Seq<EventV>, b: Seq<EventV>)
    ensures
        trace_of(t, a + b) == trace_of(trace_of(t, a), b),
    decreases b.len(),
{
    if b.len() == 0 {
        assert(a + b =~= a);
    } else {
        lemma_trace_append(t, a, b.drop_last());
        assert((a + b).drop_last() =~= a + b.drop_last());
    }
}

proof fn lemma_trace_one(t: BlockTrace, e: EventV)
    ensures
        trace_of(t, seq![e]) == trace_step(t, e),
{
    assert(seq![e].drop_last() =~= Seq::<EventV>::empty());
    assert(trace_of(t, Seq::<EventV>::empty()) == t);
    assert(seq![e].last() == e);
}

proof fn lemma_trace_push(t: BlockTrace, a: Seq<EventV>, e: EventV)
    ensures
        trace_of(t, a.push(e)) == trace_step(trace_of(t, a), e),
{
    assert(a.push(e).drop_last() =~= a);
}

/// The trace that a stream in state `s` has shown.
pub open spec fn trace_at(s: StreamV) -> BlockTrace {
    BlockTrace {
        ok: true,
        started: s.started,
        next: if s.kind is Some { (s.block_idx + 1) as nat } else { 0 },
        open: s.kind is Some,
        ended: false,
        stopped: false,
    }
}

/// Blocks open only in a started stream, and block numbering starts at 0.
pub open spec fn trace_inv(s: StreamV) -> bool {
    &&& !s.started ==> s.kind is None
    &&& s.kind is None ==> s.block_idx == 0
}

proof fn lemma_open_block_trace(s: StreamV, kind: KindV)
    requires
        s.started,
        trace_inv(s),
        s.block_idx < usize::MAX,
    ensures
        trace_of(trace_at(s), open_block_v(s, kind).1) == trace_at(open_block_v(s, kind).0),
        trace_inv(open_block_v(s, kind).0),
        open_block_v(s, kind).0.started,
        open_block_v(s, kind).0.block_idx <= s.block_idx + 1,
        open_block_v(s, kind).0.kind == Some(kind),
{
    let (s1, e) = open_block_v(s, kind);
    if s.kind is Some {
        let stop = EventV::ContentBlockStop(s.block_idx);
        lemma_trace_one(trace_at(s), stop);
        lemma_trace_push(trace_at(s), seq![stop], EventV::ContentBlockStart(s1.block_idx, empty_block_of(kind)));
    } else {
        lemma_trace_push(trace_at(s), Seq::empty(), EventV::ContentBlockStart(s1.block_idx, empty_block_of(kind)));
        assert(Seq::<EventV>::empty().push(EventV::ContentBlockStart(s1.block_idx, empty_block_of(kind))) =~= e);
        assert(trace_of(trace_at(s), Seq::<EventV>::empty()) == trace_at(s));
    }
}

proof fn lemma_text_step_trace(s: StreamV, kind: KindV, f: Option<String>)
    requires
        s.started,
        trace_inv(s),
        s.block_idx < usize::MAX,
    ensures
        trace_of(trace_at(s), text_step(s, kind, f).1) == trace_at(text_step(s, kind, f).0),
        trace_inv(text_step(s, kind, f).0),
        text_step(s, kind, f).0.started,
        text_step(s, kind, f).0.block_idx <= s.block_idx + 1,
{
    match f {
        Some(frag) => if frag@.len() == 0 {
            assert(trace_of(trace_at(s), Seq::<EventV>::empty()) == trace_at(s));
        } else {
            let (s1, e1) = if s.kind == Some(kind) {
                (s, Seq::<EventV>::empty())
            } else {
                open_block_v(s, kind)
            };
            if s.kind == Some(kind) {
                assert(trace_of(trace_at(s), e1) == trace_at(s));
            } else {
                lemma_open_block_trace(s, kind);
            }
            lemma_trace_push(trace_at(s), e1, EventV::ContentBlockDelta(s1.block_idx, delta_of(kind, frag@)));
        },
        None => {
            assert(trace_of(trace_at(s), Seq::<EventV>::empty()) == trace_at(s));
        },
    }
}

proof fn lemma_tool_step_trace(s: StreamV, f: ChatCompletionToolCallDelta)
    requires
        s.started,
        trace_inv(s),
        s.block_idx < usize::MAX,
    ensures
        trace_of(trace_at(s), tool_step(s, f).1) == trace_at(tool_step(s, f).0),
        trace_inv(tool_step(s, f).0),
        tool_step(s, f).0.started,
        tool_step(s, f).0.block_idx <= s.block_idx + 1,
{
    let (s1, e1) = match f.id {
        Some(id) => open_block_v(s, KindV::ToolUse(id@, fragment_name(f))),
        None => (s, Seq::<EventV>::empty()),
    };
    match f.id {
        Some(id) => lemma_open_block_trace(s, KindV::ToolUse(id@, fragment_name(f))),
        None => assert(trace_of(trace_at(s), e1) == trace_at(s)),
    }
    match fragment_arguments(f) {
        Some(a) => if a@.len() > 0 && s1.kind matches Some(KindV::ToolUse(_, _)) {
            lemma_trace_push(trace_at(s), e1, EventV::ContentBlockDelta(s1.block_idx, DeltaV::InputJson(a@)));
        },
        None => {},
    }
}

proof fn lemma_tool_steps_trace(s: StreamV, fs: Seq<ChatCompletionToolCallDelta>)
    requires
        s.started,
        trace_inv(s),
        s.block_idx + fs.len() <= usize::MAX,
    ensures
        trace_of(trace_at(s), tool_steps(s, fs).1) == trace_at(tool_steps(s, fs).0),
        trace_inv(tool_steps(s, fs).0),
        tool_steps(s, fs).0.started,
        tool_steps(s, fs).0.block_idx <= s.block_idx + fs.len(),
    decreases fs.len(),
{
    if fs.len() == 0 {
        assert(trace_of(trace_at(s), Seq::<EventV>::empty()) == trace_at(s));
    } else {
        lemma_tool_steps_trace(s, fs.drop_last());
        let (s1, e1) = tool_steps(s, fs.drop_last());
        lemma_tool_step_trace(s1, fs.last());
        lemma_trace_append(trace_at(s), e1, tool_step(s1, fs.last()).1);
    }
}

proof fn lemma_delta_step_trace(s: StreamV, d: ChatCompletionDelta)
    requires
        s.started,
        trace_inv(s),
        s.block_idx + 2 + match d.tool_calls {
            Some(tc) => tc@.len(),
            None => 0,
        } <= usize::MAX,
    ensures
        trace_of(trace_at(s), delta_step(s, d).1) == trace_at(delta_step(s, d).0),
        trace_inv(delta_step(s, d).0),
        delta_step(s, d).0.started,
{
    let (s1, e1) = text_step(s, KindV::Thinking, d.reasoning_content);
    lemma_text_step_trace(s, KindV::Thinking, d.reasoning_content);
    let (s2, e2) = text_step(s1, KindV::Text, d.content);
    lemma_text_step_trace(s1, KindV::Text, d.content);
    lemma_trace_append(trace_at(s), e1, e2);
    match d.tool_calls {
        Some(tc) => {
            lemma_tool_steps_trace(s2, tc@);
            lemma_trace_append(trace_at(s), e1 + e2, tool_steps(s2, tc@).1);
        },
        None => {},
    }
}

proof fn lemma_chunk_step_trace(s: StreamV, chunk: ChatCompletionChunk)
    requires
        trace_inv(s),
        chunk_fits(s, chunk),
    ensures
        trace_of(trace_at(s), chunk_step(s, chunk).1) == trace_at(chunk_step(s, chunk).0),
        trace_inv(chunk_step(s, chunk).0),
        chunk_step(s, chunk).0.started,
{
    let (s1, e1) = chunk_head(s, chunk);
    if !s.started {
        lemma_trace_one(trace_at(s), EventV::MessageStart(start_message_of(chunk)));
    } else {
        assert(trace_of(trace_at(s), e1) == trace_at(s));
    }
    assert(trace_at(s1) == trace_of(trace_at(s), e1));
    if chunk.choices@.len() > 0 {
        let s2 = with_finish(s1, chunk.choices@[0]);
        assert(trace_at(s2) == trace_at(s1));
        match chunk.choices@[0].delta {
            Some(d) => {
                lemma_delta_step_trace(s2, d);
                lemma_trace_append(trace_at(s), e1, delta_step(s2, d).1);
            },
            None => {},
        }
    }
}

proof fn lemma_stream_trace(chunks: Seq<ChatCompletionChunk>)
    requires
        stream_fits(chunks),
    ensures
        trace_of(empty_trace(), stream_events(chunks)) == trace_at(stream_state(chunks)),
        trace_inv(stream_state(chunks)),
        chunks.len() > 0 ==> stream_state(chunks).started,
    decreases chunks.len(),
{
    if chunks.len() == 0 {
        assert(trace_at(initial_stream()) == empty_trace());
    } else {
        lemma_stream_trace(chunks.drop_last());
        let s = stream_state(chunks.drop_last());
        lemma_chunk_step_trace(s, chunks.last());
        lemma_trace_append(empty_trace(), stream_events(chunks.drop_last()), chunk_step(s, chunks.last()).1);
    }
}

/// The events of a nonempty chunk stream have the structure of a message
/// stream: the message starts once and first; blocks start numbered 0, 1,
/// 2, ... in order, each after the one before stopped; each block's deltas
/// and its one stop come while it is open; the message delta comes once no
/// block is open, and the message stop ends the stream.
pub proof fn lemma_stream_events_well_formed(chunks: Seq<ChatCompletionChunk>)
    requires
        chunks.len() > 0,
        stream_fits(chunks),
    ensures
        ({
            let t = trace_of(empty_trace(), stream_events(chunks) + finish_events_v(stream_state(chunks)));
            t.ok && t.stopped
        }),
{
    lemma_stream_trace(chunks);
    let s = stream_state(chunks);
    lemma_trace_append(empty_trace(), stream_events(chunks), finish_events_v(s));
    let tail = seq![EventV::MessageDelta(Some(s.stop_reason), None, s.usage), EventV::MessageStop];
    let stops = if s.kind is Some {
        seq![EventV::ContentBlockStop(s.block_idx)]
    } else {
        Seq::<EventV>::empty()
    };
    assert(finish_events_v(s) == stops + tail);
    lemma_trace_append(trace_at(s), stops, tail);
    if s.kind is Some {
        lemma_trace_one(trace_at(s), EventV::ContentBlockStop(s.block_idx));
    } else {
        assert(trace_of(trace_at(s), stops) == trace_at(s));
    }
    let t1 = trace_of(trace_at(s), stops);
    lemma_trace_one(t1, EventV::MessageDelta(Some(s.stop_reason), None, s.usage));
    lemma_trace_push(t1, seq![EventV::MessageDelta(Some(s.stop_reason), None, s.usage)], EventV::MessageStop);
    assert(seq![EventV::MessageDelta(Some(s.stop_reason), None, s.usage)].push(EventV::MessageStop) =~= tail);
}

/// Text deltas of fragments `fs` to block `i`.
pub open spec fn text_deltas(i: usize, fs: Seq<Seq<char>>) -> Seq<EventV> {
    fs.map_values(|f: Seq<char>| EventV::ContentBlockDelta(i, DeltaV::Text(f)))
}

/// Thinking deltas of fragments `fs` to block `i`.
pub open spec fn thinking_deltas(i: usize, fs: Seq<Seq<char>>) -> Seq<EventV> {
    fs.map_values(|f: Seq<char>| EventV::ContentBlockDelta(i, DeltaV::Thinking(f)))
}

/// Text deltas append their fragments, in order, to the text of a text
/// block; nothing else in the message changes.
pub proof fn lemma_text_deltas_append(msg: MessageV, i: usize, t: Seq<char>, fs: Seq<Seq<char>>)
    requires
        i < msg.content.len(),
        msg.content[i as int] == BlockV::Text(t),
    ensures
        fold_events(Some(msg), text_deltas(i, fs)) == Some(
            MessageV { content: msg.content.update(i as int, BlockV::Text(t + joined(fs))), ..msg },
        ),
    decreases fs.len(),
{
    if fs.len() == 0 {
        assert(t + joined(fs) =~= t);
        assert(msg.content.update(i as int, BlockV::Text(t)) =~= msg.content);
    } else {
        lemma_text_deltas_append(msg, i, t, fs.drop_last());
        assert(text_deltas(i, fs).drop_last() =~= text_deltas(i, fs.drop_last()));
        let c1 = msg.content.update(i as int, BlockV::Text(t + joined(fs.drop_last())));
        assert(t + joined(fs.drop_last()) + fs.last() =~= t + joined(fs));
        assert(c1.update(i as int, BlockV::Text(t + joined(fs))) =~= msg.content.update(i as int, BlockV::Text(t + joined(fs))));
    }
}

/// Thinking deltas append their fragments, in order, to the thinking of a
/// thinking block, whose signature stays; nothing else in the message
/// changes. A thinking block that starts empty ends with the fragments
/// joined.
pub proof fn lemma_thinking_deltas_append(msg: MessageV, i: usize, t: Seq<char>, sig: Seq<char>, fs: Seq<Seq<char>>)
    requires
        i < msg.content.len(),
        msg.content[i as int] == BlockV::Thinking(t, sig),
    ensures
        fold_events(Some(msg), thinking_deltas(i, fs)) == Some(
            MessageV { content: msg.content.update(i as int, BlockV::Thinking(t + joined(fs), sig)), ..msg },
        ),
        fold_events(Some(msg), thinking_deltas(i, fs).push(EventV::ContentBlockStop(i))) == Some(
            MessageV { content: msg.content.update(i as int, BlockV::Thinking(t + joined(fs), sig)), ..msg },
        ),
    decreases fs.len(),
{
    if fs.len() == 0 {
        assert(t + joined(fs) =~= t);
        assert(msg.content.update(i as int, BlockV::Thinking(t, sig)) =~= msg.content);
    } else {
        lemma_thinking_deltas_append(msg, i, t, sig, fs.drop_last());
        assert(thinking_deltas(i, fs).drop_last() =~= thinking_deltas(i, fs.drop_last()));
        let c1 = msg.content.update(i as int, BlockV::Thinking(t + joined(fs.drop_last()), sig));
        assert(t + joined(fs.drop_last()) + fs.last() =~= t + joined(fs));
        assert(c1.update(i as int, BlockV::Thinking(t + joined(fs), sig)) =~= msg.content.update(
            i as int,
            BlockV::Thinking(t + joined(fs), sig),
        ));
    }
    let es = thinking_deltas(i, fs).push(EventV::ContentBlockStop(i));
    assert(es.drop_last() =~= thinking_deltas(i, fs));
    let c2 = msg.content.update(i as int, BlockV::Thinking(t + joined(fs), sig));
    assert(c2.update(i as int, close_block_v(c2[i as int])) =~= c2);
}

/// A tool call fragment that carries an id opens a tool-use block of that
/// id and name, and when it also carries arguments, they stream to that
/// block as its first input JSON: the fragment's events end with the
/// block's start and that delta.
pub proof fn lemma_tool_fragment_streams_its_arguments(s: StreamV, f: ChatCompletionToolCallDelta)
    requires
        f.id is Some,
        fragment_arguments(f) matches Some(a) && a@.len() > 0,
    ensures
        ({
            let (s1, es) = tool_step(s, f);
            let id = f.id.unwrap()@;
            let a = fragment_arguments(f).unwrap()@;
            &&& s1.kind == Some(KindV::ToolUse(id, fragment_name(f)))
            &&& es.len() >= 2
            &&& es[es.len() - 2] == EventV::ContentBlockStart(
                s1.block_idx,
                BlockV::ToolUse(id, fragment_name(f), ToolInputV::Empty),
            )
            &&& es[es.len() - 1] == EventV::ContentBlockDelta(s1.block_idx, DeltaV::InputJson(a))
        }),
{
}

/// A chunk that carries a whole tool call in one fragment (its id, name
/// and arguments, and nothing else) streams the message start, the
/// tool-use block's start and its arguments; the message these events and
/// the stream's end build holds that one tool-use block, whose input is
/// the arguments parsed when they parse as JSON, the empty object
/// otherwise.
pub proof fn lemma_whole_tool_call_chunk(c: ChatCompletionChunk, f: ChatCompletionToolCallDelta)
    requires
        c.choices@.len() > 0,
        c.choices@[0].delta is Some,
        c.choices@[0].delta.unwrap().reasoning_content is None,
        c.choices@[0].delta.unwrap().content is None,
        c.choices@[0].delta.unwrap().tool_calls is Some,
        c.choices@[0].delta.unwrap().tool_calls.unwrap()@ == seq![f],
        f.id is Some,
        fragment_arguments(f) matches Some(a) && a@.len() > 0,
    ensures
        ({
            let id = f.id.unwrap()@;
            let a = fragment_arguments(f).unwrap()@;
            let chunks = seq![c];
            &&& stream_events(chunks) == seq![
                EventV::MessageStart(start_message_of(c)),
                EventV::ContentBlockStart(0, BlockV::ToolUse(id, fragment_name(f), ToolInputV::Empty)),
                EventV::ContentBlockDelta(0, DeltaV::InputJson(a)),
            ]
            &&& fold_events(None, stream_events(chunks) + finish_events_v(stream_state(chunks))) matches Some(m)
                && m.content == seq![
                BlockV::ToolUse(
                    id,
                    fragment_name(f),
                    if parses_as_json(a) {
                        ToolInputV::Parsed(a)
                    } else {
                        ToolInputV::Empty
                    },
                ),
            ]
        }),
{
    let id = f.id.unwrap()@;
    let a = fragment_arguments(f).unwrap()@;
    let name = fragment_name(f);
    let chunks = seq![c];
    assert(chunks.drop_last() =~= Seq::<ChatCompletionChunk>::empty());
    assert(chunks.last() == c);
    let s0 = initial_stream();
    assert(stream_state(chunks.drop_last()) == s0);
    assert(stream_events(chunks.drop_last()) == Seq::<EventV>::empty());
    let d = c.choices@[0].delta.unwrap();
    let tc = d.tool_calls.unwrap();
    let (s1, e1) = chunk_head(s0, c);
    let s2 = with_finish(s1, c.choices@[0]);
    assert(s2.kind is None && s2.block_idx == 0);
    assert(text_step(s2, KindV::Thinking, d.reasoning_content) == (s2, Seq::<EventV>::empty()));
    assert(text_step(s2, KindV::Text, d.content) == (s2, Seq::<EventV>::empty()));
    assert(tc@.drop_last() =~= Seq::<ChatCompletionToolCallDelta>::empty());
    assert(tool_steps(s2, tc@.drop_last()) == (s2, Seq::<EventV>::empty()));
    let start = EventV::ContentBlockStart(0, BlockV::ToolUse(id, name, ToolInputV::Empty));
    let delta = EventV::ContentBlockDelta(0, DeltaV::InputJson(a));
    let (s3, e3) = tool_step(s2, f);
    assert(open_block_v(s2, KindV::ToolUse(id, name)).1 =~= seq![start]);
    assert(e3 =~= seq![start, delta]);
    assert(tool_steps(s2, tc@).1 =~= seq![start, delta]);
    assert(delta_step(s2, d).1 =~= seq![start, delta]);
    assert(e1 =~= seq![EventV::MessageStart(start_message_of(c))]);
    let events = seq![EventV::MessageStart(start_message_of(c)), start, delta];
    assert(stream_events(chunks) =~= events);
    let s = stream_state(chunks);
    assert(s.kind is Some && s.block_idx == 0);
    let fin = finish_events_v(s);
    let md = EventV::MessageDelta(Some(s.stop_reason), None, s.usage);
    assert(fin =~= seq![EventV::ContentBlockStop(0), md, EventV::MessageStop]);
    let all = seq![EventV::MessageStart(start_message_of(c)), start, delta, EventV::ContentBlockStop(0), md, EventV::MessageStop];
    assert(events + fin =~= all);
    let m0 = start_message_of(c);
    let input = if parses_as_json(a) { ToolInputV::Parsed(a) } else { ToolInputV::Empty };
    assert(fold_events(None, all.take(1)) == Some(m0)) by {
        assert(all.take(1).drop_last() =~= Seq::<EventV>::empty());
    }
    let m1 = MessageV { content: seq![BlockV::ToolUse(id, name, ToolInputV::Empty)], ..m0 };
    assert(fold_events(None, all.take(2)) == Some(m1)) by {
        assert(all.take(2).drop_last() =~= all.take(1));
        assert(m0.content.push(BlockV::ToolUse(id, name, ToolInputV::Empty)) =~= m1.content);
    }
    let m2 = MessageV { content: seq![BlockV::ToolUse(id, name, ToolInputV::Partial(a))], ..m0 };
    assert(fold_events(None, all.take(3)) == Some(m2)) by {
        assert(all.take(3).drop_last() =~= all.take(2));
        assert(m1.content.update(0, BlockV::ToolUse(id, name, ToolInputV::Partial(a))) =~= m2.content);
    }
    let m3 = MessageV { content: seq![BlockV::ToolUse(id, name, input)], ..m0 };
    assert(fold_events(None, all.take(4)) == Some(m3)) by {
        assert(all.take(4).drop_last() =~= all.take(3));
        assert(m2.content.update(0, BlockV::ToolUse(id, name, input)) =~= m3.content);
    }
    assert(fold_events(None, all.take(5)) matches Some(m4) && m4.content == m3.content) by {
        assert(all.take(5).drop_last() =~= all.take(4));
    }
    assert(fold_events(None, all) matches Some(m5) && m5.content == m3.content) by {
        assert(all.drop_last() =~= all.take(5));
    }
}

/// Text block of a request.
#[derive(Debug, Clone, PartialEq, Eq)]
pub struct TextBlockParam {
    pub text: String,
}

/// Text content of a request: a string, or text blocks.
#[derive(Debug, Clone, PartialEq, Eq)]
pub enum TextContent {
    Text(String),
    Blocks(Vec<TextBlockParam>),
}

/// Content block of a request message.
#[derive(Debug, Clone, PartialEq, Eq)]
pub enum ContentBlockParam {
    Text { text: String },
    /// A replayed tool call; `input` is the JSON text of its input.
    ToolUse { id: String, name: String, input: String },
    ToolResult { tool_use_id: String, content: Option<TextContent>, is_error: Option<bool> },
}

/// Content of a request message: a string, or content blocks.
#[derive(Debug, Clone, PartialEq, Eq)]
pub enum MessageContent {
    Text(String),
    Blocks(Vec<ContentBlockParam>),
}

/// A request message.
#[derive(Debug, Clone, PartialEq, Eq)]
pub struct MessageParam {
    pub role: String,
    pub content: MessageContent,
}

/// The texts of text blocks, in order.
pub open spec fn text_block_texts(blocks: Seq<TextBlockParam>) -> Seq<Seq<char>> {
    blocks.map_values(|b: TextBlockParam| b.text@)
}

/// The text of text content: the string, or the texts joined with newlines.
pub open spec fn text_content_text(c: TextContent) -> Seq<char> {
    match c {
        TextContent::Text(s) => s@,
        TextContent::Blocks(bs) => crate::chat::join_lines(text_block_texts(bs@)),
    }
}

/// The texts of the text blocks among `blocks`, in order.
pub open spec fn param_texts(blocks: Seq<ContentBlockParam>) -> Seq<Seq<char>>
    decreases blocks.len(),
{
    if blocks.len() == 0 {
        Seq::empty()
    } else {
        match blocks.last() {
            ContentBlockParam::Text { text } => param_texts(blocks.drop_last()).push(text@),
            _ => param_texts(blocks.drop_last()),
        }
    }
}

/// The text of message content: the string, or the texts of its text
/// blocks joined with newlines.
pub open spec fn message_content_text(c: MessageContent) -> Seq<char> {
    match c {
        MessageContent::Text(s) => s@,
        MessageContent::Blocks(bs) => crate::chat::join_lines(param_texts(bs@)),
    }
}

/// Appends `texts` joined with newlines after the `count` texts joined in `out`.
fn push_joined(out: &mut Vec<char>, count: usize, text: &String) -> (n: usize)
    requires
        count < usize::MAX,
    ensures
        n == count + 1,
        final(out)@ == if count == 0 {
            old(out)@ + text@
        } else {
            old(out)@ + seq!['\n'] + text@
        },
{
    if count > 0 {
        out.push('\n');
    }
    push_string_chars(out, text);
    count + 1
}

impl TextContent {
    /// The text: the string, or the texts of the blocks joined with newlines.
    pub fn flatten(&self) -> (r: String)
        ensures
            r@ == text_content_text(*self),
    {
        match self {
            TextContent::Text(s) => s.clone(),
            TextContent::Blocks(blocks) => {
                let mut out: Vec<char> = Vec::new();
                let mut i: usize = 0;
                assert(text_block_texts(blocks@).take(0) =~= Seq::<Seq<char>>::empty());
                while i < blocks.len()
                    invariant
                        i <= blocks.len(),
                        out@ == crate::chat::join_lines(text_block_texts(blocks@).take(i as int)),
                    decreases blocks.len() - i,
                {
                    let ghost texts = text_block_texts(blocks@);
                    assert(texts.take(i + 1).drop_last() =~= texts.take(i as int));
                    assert(texts.take(i + 1).last() == blocks@[i as int].text@);
                    push_joined(&mut out, i, &blocks[i].text);
                    i = i + 1;
                }
                assert(text_block_texts(blocks@).take(blocks.len() as int) =~= text_block_texts(blocks@));
                string_from_chars(out.as_slice())
            },
        }
    }
}

impl MessageContent {
    /// The text: the string, or the texts of the text blocks joined with newlines.
    pub fn flatten(&self) -> (r: String)
        ensures
            r@ == message_content_text(*self),
    {
        match self {
            MessageContent::Text(s) => s.clone(),
            MessageContent::Blocks(blocks) => {
                let mut out: Vec<char> = Vec::new();
                let mut count: usize = 0;
                let mut i: usize = 0;
                assert(blocks@.take(0) =~= Seq::<ContentBlockParam>::empty());
                while i < blocks.len()
                    invariant
                        i <= blocks.len(),
                        count <= i,
                        count == param_texts(blocks@.take(i as int)).len(),
                        out@ == crate::chat::join_lines(param_texts(blocks@.take(i as int))),
                    decreases blocks.len() - i,
                {
                    assert(blocks@.take(i + 1).drop_last() =~= blocks@.take(i as int));
                    match &blocks[i] {
                        ContentBlockParam::Text { text } => {
                            let ghost before = param_texts(blocks@.take(i as int));
                            count = push_joined(&mut out, count, text);
                            assert(param_texts(blocks@.take(i + 1)).drop_last() =~= before);
                        },
                        _ => {},
                    }
                    i = i + 1;
                }
                assert(blocks@.take(blocks.len() as int) =~= blocks@);
                string_from_chars(out.as_slice())
            },
        }
    }
}

/// An OpenAI-shaped chat message as plain values: its role, its text
/// content, one tool call (id, name, arguments) and the tool call it answers.
pub struct OpenAIMessageV {
    pub role: Seq<char>,
    pub content: Option<Seq<char>>,
    pub tool_call: Option<(Seq<char>, Seq<char>, Seq<char>)>,
    pub tool_call_id: Option<Seq<char>>,
}

/// `m` is the chat message that `v` describes.
pub open spec fn chat_message_is(m: crate::chat::ChatCompletionMessage, v: OpenAIMessageV) -> bool {
    &&& m.role@ == v.role
    &&& match v.content {
        Some(t) => m.content matches Some(crate::chat::ChatCompletionContent::Text(s)) && s@ == t,
        None => m.content is None,
    }
    &&& m.reasoning_content is None
    &&& match v.tool_call {
        Some((id, name, arguments)) => m.tool_calls matches Some(calls) && calls@.len() == 1 && {
            let c = calls@[0];
            &&& c.id@ == id
            &&& c.kind@ == "function"@
            &&& c.function.name@ == name
            &&& c.function.arguments@ == arguments
        },
        None => m.tool_calls is None,
    }
    &&& opt_view(m.tool_call_id) == v.tool_call_id
}

/// The message that a run of text blocks becomes: their texts joined with
/// newlines, on the message's role; none for an empty run.
pub open spec fn flush_run(role: Seq<char>, run: Seq<Seq<char>>) -> Seq<OpenAIMessageV> {
    if run.len() == 0 {
        Seq::empty()
    } else {
        seq![OpenAIMessageV { role, content: Some(crate::chat::join_lines(run)), tool_call: None, tool_call_id: None }]
    }
}

/// The messages of content blocks `blocks` so far, and the pending run of
/// texts not yet emitted.
pub open spec fn translate_blocks(role: Seq<char>, blocks: Seq<ContentBlockParam>) -> (Seq<OpenAIMessageV>, Seq<Seq<char>>)
    decreases blocks.len(),
{
    if blocks.len() == 0 {
        (Seq::empty(), Seq::empty())
    } else {
        let (out, run) = translate_blocks(role, blocks.drop_last());
        match blocks.last() {
            ContentBlockParam::Text { text } => (out, run.push(text@)),
            ContentBlockParam::ToolUse { id, name, input } => (
                out + flush_run(role, run) + seq![OpenAIMessageV {
                    role: "assistant"@,
                    content: None,
                    tool_call: Some((id@, name@, input@)),
                    tool_call_id: None,
                }],
                Seq::empty(),
            ),
            ContentBlockParam::ToolResult { tool_use_id, content, .. } => (
                out + flush_run(role, run) + seq![OpenAIMessageV {
                    role: "tool"@,
                    content: match content {
                        Some(c) => Some(text_content_text(c)),
                        None => None,
                    },
                    tool_call: None,
                    tool_call_id: Some(tool_use_id@),
                }],
                Seq::empty(),
            ),
        }
    }
}

/// The OpenAI-shaped messages that an Anthropic message becomes. String
/// content stays one message on its role. Runs of text blocks become one
/// message on the role, their texts joined with newlines; a replayed tool
/// call becomes an assistant message with that tool call; a tool result
/// becomes a `tool` message bound to the call it answers. Order is kept.
pub open spec fn translate_spec(message: MessageParam) -> Seq<OpenAIMessageV> {
    match message.content {
        MessageContent::Text(s) => seq![OpenAIMessageV {
            role: message.role@,
            content: Some(s@),
            tool_call: None,
            tool_call_id: None,
        }],
        MessageContent::Blocks(bs) => {
            let (out, run) = translate_blocks(message.role@, bs@);
            out + flush_run(message.role@, run)
        },
    }
}

/// The messages `out` are described by `vs`, in order.
pub open spec fn chat_messages_are(out: Seq<crate::chat::ChatCompletionMessage>, vs: Seq<OpenAIMessageV>) -> bool {
    out.len() == vs.len() && forall|k: int| 0 <= k < vs.len() ==> #[trigger] chat_message_is(out[k], vs[k])
}

fn plain_message(role: &String, content: String) -> (r: crate::chat::ChatCompletionMessage)
    ensures
        chat_message_is(r, OpenAIMessageV { role: role@, content: Some(content@), tool_call: None, tool_call_id: None }),
{
    crate::chat::ChatCompletionMessage {
        role: role.clone(),
        content: Some(crate::chat::ChatCompletionContent::Text(content)),
        reasoning_content: None,
        tool_calls: None,
        tool_call_id: None,
    }
}

/// Emits the pending run of texts, if any.
fn flush(role: &String, run: &mut Vec<char>, count: &mut usize, messages: &mut Vec<crate::chat::ChatCompletionMessage>, Ghost(texts): Ghost<Seq<Seq<char>>>, Ghost(vs): Ghost<Seq<OpenAIMessageV>>)
    requires
        old(run)@ == crate::chat::join_lines(texts),
        *old(count) == texts.len(),
        chat_messages_are(old(messages)@, vs),
    ensures
        chat_messages_are(final(messages)@, vs + flush_run(role@, texts)),
        final(run)@.len() == 0,
        *final(count) == 0,
{
    if *count > 0 {
        let text = string_from_chars(run.as_slice());
        messages.push(plain_message(role, text));
        *run = Vec::new();
        *count = 0;
        proof {
            let w = vs + flush_run(role@, texts);
            assert forall|k: int| 0 <= k < w.len() implies #[trigger] chat_message_is(messages@[k], w[k]) by {
                if k < vs.len() {
                    assert(chat_message_is(old(messages)@[k], vs[k]));
                }
            }
        }
    } else {
        assert(vs + flush_run(role@, texts) =~= vs);
        *run = Vec::new();
    }
}

/// Translates one Anthropic message into OpenAI-shaped messages, appended
/// to `messages`.
#[verifier::loop_isolation(false)]
pub fn translate_message_for_openai(message: &MessageParam, messages: &mut Vec<crate::chat::ChatCompletionMessage>)
    ensures
        final(messages)@.len() == old(messages)@.len() + translate_spec(*message).len(),
        final(messages)@.take(old(messages)@.len() as int) == old(messages)@,
        chat_messages_are(final(messages)@.skip(old(messages)@.len() as int), translate_spec(*message)),
{
    let ghost start = messages@;
    let mut out: Vec<crate::chat::ChatCompletionMessage> = Vec::new();
    match &message.content {
        MessageContent::Text(_) => {
            out.push(plain_message(&message.role, message.content.flatten()));
            assert(chat_messages_are(out@, translate_spec(*message))) by {
                assert(chat_message_is(out@[0], translate_spec(*message)[0]));
            }
        },
        MessageContent::Blocks(blocks) => {
            let ghost role = message.role@;
            let mut run: Vec<char> = Vec::new();
            let mut count: usize = 0;
            let mut i: usize = 0;
            assert(blocks@.take(0) =~= Seq::<ContentBlockParam>::empty());
            while i < blocks.len()
                invariant
                    i <= blocks.len(),
                    count <= i,
                    ({
                        let (vs, texts) = translate_blocks(role, blocks@.take(i as int));
                        &&& chat_messages_are(out@, vs)
                        &&& run@ == crate::chat::join_lines(texts)
                        &&& count == texts.len()
                    }),
                decreases blocks.len() - i,
            {
                let ghost (vs, texts) = translate_blocks(role, blocks@.take(i as int));
                assert(blocks@.take(i + 1).drop_last() =~= blocks@.take(i as int));
                assert(blocks@.take(i + 1).last() == blocks@[i as int]);
                match &blocks[i] {
                    ContentBlockParam::Text { text } => {
                        count = push_joined(&mut run, count, text);
                        assert(texts.push(text@).drop_last() =~= texts);
                    },
                    ContentBlockParam::ToolUse { id, name, input } => {
                        flush(&message.role, &mut run, &mut count, &mut out, Ghost(texts), Ghost(vs));
                        let ghost w = vs + flush_run(role, texts);
                        let call = crate::chat::ChatCompletionMessageFunctionToolCall {
                            id: id.clone(),
                            kind: owned("function"),
                            function: crate::chat::ChatCompletionToolCallFunction { name: name.clone(), arguments: input.clone() },
                        };
                        let mut calls: Vec<crate::chat::ChatCompletionMessageFunctionToolCall> = Vec::new();
                        calls.push(call);
                        out.push(crate::chat::ChatCompletionMessage {
                            role: owned("assistant"),
                            content: None,
                            reasoning_content: None,
                            tool_calls: Some(calls),
                            tool_call_id: None,
                        });
                        assert(run@ =~= crate::chat::join_lines(Seq::<Seq<char>>::empty()));
                        proof {
                            let w2 = translate_blocks(role, blocks@.take(i + 1)).0;
                            assert forall|k: int| 0 <= k < w2.len() implies #[trigger] chat_message_is(out@[k], w2[k]) by {
                                if k < w.len() {
                                    assert(chat_message_is(out@[k], w[k]));
                                }
                            }
                        }
                    },
                    ContentBlockParam::ToolResult { tool_use_id, content, .. } => {
                        flush(&message.role, &mut run, &mut count, &mut out, Ghost(texts), Ghost(vs));
                        let ghost w = vs + flush_run(role, texts);
                        let text = match content {
                            Some(c) => Some(crate::chat::ChatCompletionContent::Text(c.flatten())),
                            None => None,
                        };
                        out.push(crate::chat::ChatCompletionMessage {
                            role: owned("tool"),
                            content: text,
                            reasoning_content: None,
                            tool_calls: None,
                            tool_call_id: Some(tool_use_id.clone()),
                        });
                        assert(run@ =~= crate::chat::join_lines(Seq::<Seq<char>>::empty()));
                        proof {
                            let w2 = translate_blocks(role, blocks@.take(i + 1)).0;
                            assert forall|k: int| 0 <= k < w2.len() implies #[trigger] chat_message_is(out@[k], w2[k]) by {
                                if k < w.len() {
                                    assert(chat_message_is(out@[k], w[k]));
                                }
                            }
                        }
                    },
                }
                i = i + 1;
            }
            assert(blocks@.take(blocks.len() as int) =~= blocks@);
            let ghost (vs, texts) = translate_blocks(role, blocks@);
            flush(&message.role, &mut run, &mut count, &mut out, Ghost(texts), Ghost(vs));
        },
    }
    let ghost produced = out@;
    messages.append(&mut out);
    assert(messages@.take(start.len() as int) =~= start);
    assert(messages@.skip(start.len() as int) =~= produced);
}

/// The message that the events `events` build up, one event after the
/// other; an error when no message started.
pub fn accumulate_message(events: Vec<RawMessageStreamEvent>) -> (r: Result<Message, crate::error::MunaError>)
    ensures
        match fold_events(None, events_view(events@)) {
            Some(m) => r matches Ok(msg) && msg@ == m,
            None => r matches Err(crate::error::MunaError::Prediction(e)) && e@
                == "Failed to create message because the model did not return any outputs"@,
        },
{
    let ghost all = events@;
    assert(all.len() == events.len());
    let mut rest = events;
    let mut message: Option<Message> = None;
    let mut k: usize = 0;
    assert(events_view(all.take(0)) =~= Seq::<EventV>::empty());
    assert(all.skip(0) =~= all);
    while rest.len() > 0
        invariant
            k <= all.len() <= usize::MAX,
            rest@ == all.skip(k as int),
            message_opt_view(message) == fold_events(None, events_view(all.take(k as int))),
        decreases rest.len(),
    {
        let event = rest.remove(0);
        proof {
            assert(event == all[k as int]);
            assert(rest@ =~= all.skip(k + 1));
            assert(events_view(all.take(k + 1)) =~= events_view(all.take(k as int)).push(event@));
            lemma_fold_push(None, events_view(all.take(k as int)), event@);
        }
        apply_event(&mut message, event);
        k = k + 1;
    }
    assert(all.take(k as int) =~= all);
    match message {
        Some(m) => Ok(m),
        None => Err(crate::error::MunaError::Prediction(owned("Failed to create message because the model did not return any outputs"))),
    }
}
} // verus!
