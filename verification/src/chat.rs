//! The OpenAI chat completions schema, and how streamed chunks merge into
//! one completion.

use vstd::prelude::*;
use crate::error::MunaError;
use crate::text::{push_string_chars, string_from_chars};
use crate::models::owned;

verus! {

/// Image URL of an `image_url` content part.
#[derive(Debug, Clone, PartialEq, Eq)]
pub struct ChatCompletionContentPartImageUrl {
    pub url: String,
    pub detail: Option<String>,
}

/// Audio of an `input_audio` content part.
#[derive(Debug, Clone, PartialEq, Eq)]
pub struct ChatCompletionContentPartInputAudio {
    /// Base64-encoded audio data.
    pub data: String,
    /// Audio format (`wav`, `mp3`).
    pub format: String,
}

/// File of a `file` content part.
#[derive(Debug, Clone, PartialEq, Eq)]
pub struct ChatCompletionContentPartFile {
    pub file_data: Option<String>,
    pub file_id: Option<String>,
    pub filename: Option<String>,
}

/// Chat message content part.
#[derive(Debug, Clone, PartialEq, Eq)]
pub enum ChatCompletionContentPart {
    Text { text: String },
    Refusal { refusal: String },
    ImageUrl { image_url: ChatCompletionContentPartImageUrl },
    InputAudio { input_audio: ChatCompletionContentPartInputAudio },
    File { file: ChatCompletionContentPartFile },
}

/// Chat message content: a string, or a list of content parts.
#[derive(Debug, Clone, PartialEq, Eq)]
pub enum ChatCompletionContent {
    Text(String),
    Parts(Vec<ChatCompletionContentPart>),
}

/// The text of a textual content part (`text` or `refusal`).
pub open spec fn part_text(part: ChatCompletionContentPart) -> Option<Seq<char>> {
    match part {
        ChatCompletionContentPart::Text { text } => Some(text@),
        ChatCompletionContentPart::Refusal { refusal } => Some(refusal@),
        _ => None,
    }
}

/// The texts of the textual parts among `parts`, in order.
pub open spec fn part_texts(parts: Seq<ChatCompletionContentPart>) -> Seq<Seq<char>>
    decreases parts.len(),
{
    if parts.len() == 0 {
        Seq::empty()
    } else {
        match part_text(parts.last()) {
            Some(t) => part_texts(parts.drop_last()).push(t),
            None => part_texts(parts.drop_last()),
        }
    }
}

/// `texts` joined with newlines.
pub open spec fn join_lines(texts: Seq<Seq<char>>) -> Seq<char>
    decreases texts.len(),
{
    if texts.len() == 0 {
        Seq::empty()
    } else if texts.len() == 1 {
        texts[0]
    } else {
        join_lines(texts.drop_last()) + seq!['\n'] + texts.last()
    }
}

/// The text of message content: the string itself, or the texts of its
/// textual parts joined with newlines.
pub open spec fn content_text(content: ChatCompletionContent) -> Seq<char> {
    match content {
        ChatCompletionContent::Text(s) => s@,
        ChatCompletionContent::Parts(parts) => join_lines(part_texts(parts@)),
    }
}

/// Every part of the content is textual.
pub open spec fn content_is_text(content: ChatCompletionContent) -> bool {
    match content {
        ChatCompletionContent::Text(_) => true,
        ChatCompletionContent::Parts(parts) => forall|i: int|
            0 <= i < parts@.len() ==> (#[trigger] part_text(parts@[i])) is Some,
    }
}

impl ChatCompletionContent {
    /// Whether the content holds only text (a string, or only `text` and
    /// `refusal` parts).
    #[verifier::loop_isolation(false)]
    pub fn is_text(&self) -> (r: bool)
        ensures
            r == content_is_text(*self),
    {
        match self {
            ChatCompletionContent::Text(_) => true,
            ChatCompletionContent::Parts(parts) => {
                let mut i: usize = 0;
                while i < parts.len()
                    invariant
                        i <= parts.len(),
                        forall|j: int| 0 <= j < i ==> (#[trigger] part_text(parts@[j])) is Some,
                    decreases parts.len() - i,
                {
                    match &parts[i] {
                        ChatCompletionContentPart::Text { .. } => {},
                        ChatCompletionContentPart::Refusal { .. } => {},
                        _ => {
                            assert(part_text(parts@[i as int]) is None);
                            return false;
                        },
                    }
                    i = i + 1;
                }
                true
            },
        }
    }

    /// The content as one string: the texts of its textual parts joined
    /// with newlines.
    pub fn flatten(&self) -> (r: String)
        ensures
            r@ == content_text(*self),
    {
        match self {
            ChatCompletionContent::Text(s) => s.clone(),
            ChatCompletionContent::Parts(parts) => {
                let mut out: Vec<char> = Vec::new();
                let mut count: usize = 0;
                let mut i: usize = 0;
                assert(parts@.take(0) =~= Seq::<ChatCompletionContentPart>::empty());
                while i < parts.len()
                    invariant
                        i <= parts.len(),
                        out@ == join_lines(part_texts(parts@.take(i as int))),
                        count == part_texts(parts@.take(i as int)).len(),
                        count <= i,
                    decreases parts.len() - i,
                {
                    let ghost before = part_texts(parts@.take(i as int));
                    assert(parts@.take(i + 1).drop_last() =~= parts@.take(i as int));
                    let text = match &parts[i] {
                        ChatCompletionContentPart::Text { text } => Some(text),
                        ChatCompletionContentPart::Refusal { refusal } => Some(refusal),
                        _ => None,
                    };
                    match text {
                        Some(t) => {
                            if count > 0 {
                                out.push('\n');
                            }
                            push_string_chars(&mut out, t);
                            count = count + 1;
                            proof {
                                let after = part_texts(parts@.take(i + 1));
                                assert(after == before.push(t@));
                                assert(after.drop_last() =~= before);
                            }
                        },
                        None => {},
                    }
                    i = i + 1;
                }
                assert(parts@.take(parts.len() as int) =~= parts@);
                string_from_chars(out.as_slice())
            },
        }
    }
}


/// Function of a completed tool call.
#[derive(Debug, Clone, PartialEq, Eq)]
pub struct ChatCompletionToolCallFunction {
    pub name: String,
    pub arguments: String,
}

/// Completed function tool call of an assistant message.
#[derive(Debug, Clone, PartialEq, Eq)]
pub struct ChatCompletionMessageFunctionToolCall {
    pub id: String,
    /// Tool type, always `function` (the `type` field on the wire).
    pub kind: String,
    pub function: ChatCompletionToolCallFunction,
}

/// Function fragment of a streamed tool call.
#[derive(Debug, Clone, PartialEq, Eq)]
pub struct ChatCompletionToolCallFunctionDelta {
    pub name: Option<String>,
    pub arguments: Option<String>,
}

/// Streamed tool call fragment.
#[derive(Debug, Clone, PartialEq, Eq)]
pub struct ChatCompletionToolCallDelta {
    /// Index of the tool call that this fragment belongs to.
    pub index: usize,
    pub id: Option<String>,
    /// Tool type (the `type` field on the wire).
    pub kind: Option<String>,
    pub function: Option<ChatCompletionToolCallFunctionDelta>,
}

/// Streamed message delta.
#[derive(Debug, Clone, PartialEq, Eq, Default)]
pub struct ChatCompletionDelta {
    pub role: Option<String>,
    pub content: Option<String>,
    pub reasoning_content: Option<String>,
    pub tool_calls: Option<Vec<ChatCompletionToolCallDelta>>,
}

/// Streamed choice.
#[derive(Debug, Clone, PartialEq, Eq)]
pub struct ChatCompletionChunkChoice {
    pub index: usize,
    pub delta: Option<ChatCompletionDelta>,
    pub finish_reason: Option<String>,
}

/// Breakdown of prompt tokens.
#[derive(Debug, Clone, Copy, PartialEq, Eq, Default)]
pub struct PromptTokensDetails {
    pub audio_tokens: Option<u32>,
    pub cache_write_tokens: Option<u32>,
    pub cached_tokens: Option<u32>,
}

/// Breakdown of completion tokens.
#[derive(Debug, Clone, Copy, PartialEq, Eq, Default)]
pub struct CompletionTokensDetails {
    pub reasoning_tokens: Option<u32>,
}

/// Token usage.
#[derive(Debug, Clone, Copy, PartialEq, Eq, Default)]
pub struct ChatCompletionUsage {
    pub prompt_tokens: u32,
    pub completion_tokens: u32,
    pub total_tokens: u32,
    pub prompt_tokens_details: Option<PromptTokensDetails>,
    pub completion_tokens_details: Option<CompletionTokensDetails>,
}

/// Streamed chat completion chunk.
#[derive(Debug, Clone, PartialEq, Eq)]
pub struct ChatCompletionChunk {
    /// Object type, `chat.completion.chunk`.
    pub object: String,
    pub id: String,
    pub model: String,
    pub choices: Vec<ChatCompletionChunkChoice>,
    pub created: i64,
    pub usage: Option<ChatCompletionUsage>,
}

/// Chat message.
#[derive(Debug, Clone, PartialEq, Eq)]
pub struct ChatCompletionMessage {
    pub role: String,
    pub content: Option<ChatCompletionContent>,
    pub reasoning_content: Option<String>,
    pub tool_calls: Option<Vec<ChatCompletionMessageFunctionToolCall>>,
    pub tool_call_id: Option<String>,
}

/// Chat completion choice.
#[derive(Debug, Clone, PartialEq, Eq)]
pub struct ChatCompletionChoice {
    pub index: usize,
    pub message: ChatCompletionMessage,
    pub finish_reason: Option<String>,
}

/// Chat completion.
#[derive(Debug, Clone, PartialEq, Eq)]
pub struct ChatCompletion {
    /// Object type, `chat.completion`.
    pub object: String,
    pub id: String,
    pub model: String,
    pub created: i64,
    pub choices: Vec<ChatCompletionChoice>,
    pub usage: Option<ChatCompletionUsage>,
}

/// The elements of `s` in strictly increasing order.
pub open spec fn strictly_increasing(s: Seq<usize>) -> bool {
    forall|i: int, j: int| 0 <= i < j < s.len() ==> s[i] < s[j]
}

/// The distinct values of `xs`, in increasing order.
pub fn sorted_distinct(xs: &Vec<usize>) -> (r: Vec<usize>)
    ensures
        strictly_increasing(r@),
        forall|x: usize| r@.contains(x) <==> xs@.contains(x),
{
    let mut r: Vec<usize> = Vec::new();
    let mut prev: Option<usize> = None;
    loop
        invariant
            strictly_increasing(r@),
            forall|x: usize| r@.contains(x) ==> xs@.contains(x),
            prev is None <==> r@.len() == 0,
            prev matches Some(p) ==> p == r@.last(),
            prev matches Some(p) ==> forall|x: usize| xs@.contains(x) && x <= p ==> r@.contains(x),
        ensures
            strictly_increasing(r@),
            forall|x: usize| r@.contains(x) <==> xs@.contains(x),
        decreases
                match prev {
                    Some(p) => usize::MAX - p,
                    None => usize::MAX + 1,
                },
    {
        let mut next: Option<usize> = None;
        let mut i: usize = 0;
        while i < xs.len()
            invariant
                i <= xs.len(),
                next matches Some(n) ==> (xs@.contains(n) && match prev {
                    Some(p) => n > p,
                    None => true,
                }),
                forall|j: int|
                    0 <= j < i && match prev {
                        Some(p) => #[trigger] xs@[j] > p,
                        None => true,
                    } ==> (next matches Some(n) && n <= xs@[j]),
            decreases xs.len() - i,
        {
            let x = xs[i];
            let above = match prev {
                Some(p) => x > p,
                None => true,
            };
            if above {
                match next {
                    Some(n) => {
                        if x < n {
                            next = Some(x);
                        }
                    },
                    None => {
                        next = Some(x);
                    },
                }
            }
            i = i + 1;
        }
        match next {
            Some(n) => {
                let ghost old_r = r@;
                r.push(n);
                proof {
                    assert forall|a: int, b: int| 0 <= a < b < r@.len() implies r@[a] < r@[b] by {
                        if b == r@.len() - 1 && a < b {
                            assert(r@[a] == old_r[a]);
                        }
                    }
                    assert forall|x: usize| r@.contains(x) implies xs@.contains(x) by {
                        if x != n {
                            let k = choose|k: int| 0 <= k < r@.len() && r@[k] == x;
                            assert(old_r[k] == x);
                        }
                    }
                    assert forall|x: usize| xs@.contains(x) && x <= n implies r@.contains(x) by {
                        let j = choose|j: int| 0 <= j < xs@.len() && xs@[j] == x;
                        if x == n {
                            assert(r@[r@.len() - 1] == n);
                        } else {
                            match prev {
                                Some(p) => {
                                    if x > p {
                                        assert(n <= xs@[j]);
                                    }
                                    assert(old_r.contains(x));
                                    let k = choose|k: int| 0 <= k < old_r.len() && old_r[k] == x;
                                    assert(r@[k] == x);
                                },
                                None => {
                                    assert(n <= xs@[j]);
                                },
                            }
                        }
                    }
                }
                prev = Some(n);
            },
            None => {
                proof {
                    assert forall|x: usize| xs@.contains(x) implies r@.contains(x) by {
                        let j = choose|j: int| 0 <= j < xs@.len() && xs@[j] == x;
                        match prev {
                            Some(p) => {
                                if x > p {
                                    assert(next is Some);
                                }
                            },
                            None => {
                                assert(next is Some);
                            },
                        }
                    }
                }
                break;
            },
        }
    }
    r
}


/// Two strictly increasing sequences with the same elements are equal.
pub proof fn lemma_sorted_unique(a: Seq<usize>, b: Seq<usize>)
    requires
        strictly_increasing(a),
        strictly_increasing(b),
        forall|x: usize| a.contains(x) <==> b.contains(x),
    ensures
        a == b,
    decreases a.len(),
{
    if a.len() == 0 {
        if b.len() > 0 {
            assert(b.contains(b[0]));
        }
        assert(a =~= b);
    } else {
        assert(a.contains(a[0]));
        assert(b.len() > 0);
        assert(b.contains(b[0]));
        let i = choose|i: int| 0 <= i < b.len() && b[i] == a[0];
        let j = choose|j: int| 0 <= j < a.len() && a[j] == b[0];
        assert(a[0] <= a[j]);
        assert(b[0] <= b[i]);
        assert(a[0] == b[0]);
        let ra = a.drop_first();
        let rb = b.drop_first();
        assert forall|x: usize| ra.contains(x) <==> rb.contains(x) by {
            if ra.contains(x) {
                let k = choose|k: int| 0 <= k < ra.len() && ra[k] == x;
                assert(a[k + 1] == x);
                assert(a.contains(x));
                let m = choose|m: int| 0 <= m < b.len() && b[m] == x;
                assert(m != 0);
                assert(rb[m - 1] == x);
            }
            if rb.contains(x) {
                let k = choose|k: int| 0 <= k < rb.len() && rb[k] == x;
                assert(b[k + 1] == x);
                assert(b.contains(x));
                let m = choose|m: int| 0 <= m < a.len() && a[m] == x;
                assert(m != 0);
                assert(ra[m - 1] == x);
            }
        }
        lemma_sorted_unique(ra, rb);
        assert(a.len() == ra.len() + 1 && b.len() == rb.len() + 1);
        assert forall|k: int| 0 <= k < a.len() implies a[k] == b[k] by {
            if k > 0 {
                assert(a[k] == ra[k - 1]);
                assert(b[k] == rb[k - 1]);
            }
        }
        assert(a =~= b);
    }
}

/// The distinct values of `xs` in increasing order.
pub open spec fn sorted_distinct_spec(xs: Seq<usize>) -> Seq<usize> {
    choose|r: Seq<usize>| strictly_increasing(r) && forall|x: usize| r.contains(x) <==> xs.contains(x)
}

/// `sorted_distinct` gives what `sorted_distinct_spec` names.
proof fn lemma_sorted_distinct_is(xs: Seq<usize>, r: Seq<usize>)
    requires
        strictly_increasing(r),
        forall|x: usize| r.contains(x) <==> xs.contains(x),
    ensures
        sorted_distinct_spec(xs) == r,
{
    let s = sorted_distinct_spec(xs);
    assert(strictly_increasing(s) && forall|x: usize| s.contains(x) <==> xs.contains(x));
    lemma_sorted_unique(s, r);
}

/// All streamed choices of `chunks`, chunk by chunk.
pub open spec fn chunk_choices(chunks: Seq<ChatCompletionChunk>) -> Seq<ChatCompletionChunkChoice>
    decreases chunks.len(),
{
    if chunks.len() == 0 {
        Seq::empty()
    } else {
        chunk_choices(chunks.drop_last()) + chunks.last().choices@
    }
}

/// The choices of `cs` with index `index`, in order.
pub open spec fn with_index(cs: Seq<ChatCompletionChunkChoice>, index: usize) -> Seq<ChatCompletionChunkChoice>
    decreases cs.len(),
{
    if cs.len() == 0 {
        Seq::empty()
    } else if cs.last().index == index {
        with_index(cs.drop_last(), index).push(cs.last())
    } else {
        with_index(cs.drop_last(), index)
    }
}

/// The indices of the choices `cs`.
pub open spec fn choice_indices(cs: Seq<ChatCompletionChunkChoice>) -> Seq<usize> {
    cs.map_values(|c: ChatCompletionChunkChoice| c.index)
}

/// Content fragment of a streamed choice (empty when absent).
pub open spec fn content_fragment(c: ChatCompletionChunkChoice) -> Seq<char> {
    match c.delta {
        Some(d) => match d.content {
            Some(t) => t@,
            None => Seq::empty(),
        },
        None => Seq::empty(),
    }
}

/// Reasoning fragment of a streamed choice (empty when absent).
pub open spec fn reasoning_fragment(c: ChatCompletionChunkChoice) -> Seq<char> {
    match c.delta {
        Some(d) => match d.reasoning_content {
            Some(t) => t@,
            None => Seq::empty(),
        },
        None => Seq::empty(),
    }
}

/// Concatenated content fragments of `cs`.
pub open spec fn merged_content(cs: Seq<ChatCompletionChunkChoice>) -> Seq<char>
    decreases cs.len(),
{
    if cs.len() == 0 {
        Seq::empty()
    } else {
        merged_content(cs.drop_last()) + content_fragment(cs.last())
    }
}

/// Concatenated reasoning fragments of `cs`.
pub open spec fn merged_reasoning(cs: Seq<ChatCompletionChunkChoice>) -> Seq<char>
    decreases cs.len(),
{
    if cs.len() == 0 {
        Seq::empty()
    } else {
        merged_reasoning(cs.drop_last()) + reasoning_fragment(cs.last())
    }
}

/// The streamed choice carries a role.
pub open spec fn has_role(c: ChatCompletionChunkChoice) -> bool {
    c.delta matches Some(d) && d.role is Some
}

/// Whether a streamed choice carries a role.
pub open spec fn role_pred() -> spec_fn(ChatCompletionChunkChoice) -> bool {
    |c: ChatCompletionChunkChoice| has_role(c)
}

/// Whether a streamed choice carries a finish reason.
pub open spec fn finish_pred() -> spec_fn(ChatCompletionChunkChoice) -> bool {
    |c: ChatCompletionChunkChoice| c.finish_reason is Some
}

/// The role of a completion merged from `cs`: the first streamed role,
/// `assistant` when none is.
pub open spec fn merged_role(cs: Seq<ChatCompletionChunkChoice>) -> Seq<char> {
    let i = crate::params::first_index_where(cs, role_pred(), 0);
    if 0 <= i < cs.len() {
        cs[i].delta.unwrap().role.unwrap()@
    } else {
        "assistant"@
    }
}

/// The first finish reason among `cs`.
pub open spec fn merged_finish_reason(cs: Seq<ChatCompletionChunkChoice>) -> Option<String> {
    let i = crate::params::first_index_where(cs, finish_pred(), 0);
    if 0 <= i < cs.len() {
        cs[i].finish_reason
    } else {
        None
    }
}

/// Tool call fragments of a streamed choice.
pub open spec fn choice_fragments(c: ChatCompletionChunkChoice) -> Seq<ChatCompletionToolCallDelta> {
    match c.delta {
        Some(d) => match d.tool_calls {
            Some(v) => v@,
            None => Seq::empty(),
        },
        None => Seq::empty(),
    }
}

/// All tool call fragments of `cs`, in order.
pub open spec fn all_fragments(cs: Seq<ChatCompletionChunkChoice>) -> Seq<ChatCompletionToolCallDelta>
    decreases cs.len(),
{
    if cs.len() == 0 {
        Seq::empty()
    } else {
        all_fragments(cs.drop_last()) + choice_fragments(cs.last())
    }
}

/// The fragments of `fs` for tool call `index`, in order.
pub open spec fn fragments_with_index(fs: Seq<ChatCompletionToolCallDelta>, index: usize) -> Seq<ChatCompletionToolCallDelta>
    decreases fs.len(),
{
    if fs.len() == 0 {
        Seq::empty()
    } else if fs.last().index == index {
        fragments_with_index(fs.drop_last(), index).push(fs.last())
    } else {
        fragments_with_index(fs.drop_last(), index)
    }
}

/// The tool call indices of the fragments `fs`.
pub open spec fn fragment_indices(fs: Seq<ChatCompletionToolCallDelta>) -> Seq<usize> {
    fs.map_values(|f: ChatCompletionToolCallDelta| f.index)
}

/// The last id among `fs`, empty when none carries one.
pub open spec fn last_id(fs: Seq<ChatCompletionToolCallDelta>) -> Seq<char>
    decreases fs.len(),
{
    if fs.len() == 0 {
        Seq::empty()
    } else {
        match fs.last().id {
            Some(id) => id@,
            None => last_id(fs.drop_last()),
        }
    }
}

/// The last function name among `fs`, empty when none carries one.
pub open spec fn last_name(fs: Seq<ChatCompletionToolCallDelta>) -> Seq<char>
    decreases fs.len(),
{
    if fs.len() == 0 {
        Seq::empty()
    } else {
        match fs.last().function {
            Some(f) => match f.name {
                Some(n) => n@,
                None => last_name(fs.drop_last()),
            },
            None => last_name(fs.drop_last()),
        }
    }
}

/// The argument fragment of a tool call fragment (empty when absent).
pub open spec fn arguments_fragment(f: ChatCompletionToolCallDelta) -> Seq<char> {
    match f.function {
        Some(func) => match func.arguments {
            Some(a) => a@,
            None => Seq::empty(),
        },
        None => Seq::empty(),
    }
}

/// Concatenated argument fragments of `fs`.
pub open spec fn merged_arguments(fs: Seq<ChatCompletionToolCallDelta>) -> Seq<char>
    decreases fs.len(),
{
    if fs.len() == 0 {
        Seq::empty()
    } else {
        merged_arguments(fs.drop_last()) + arguments_fragment(fs.last())
    }
}

/// A completed tool call merged from its fragments: the last id and name
/// streamed, and the argument fragments joined.
pub open spec fn merged_call(call: ChatCompletionMessageFunctionToolCall, fs: Seq<ChatCompletionToolCallDelta>) -> bool {
    &&& call.id@ == last_id(fs)
    &&& call.kind@ == "function"@
    &&& call.function.name@ == last_name(fs)
    &&& call.function.arguments@ == merged_arguments(fs)
}

/// The tool calls merged from the choices `cs`: one per fragment index, in
/// increasing index order; `None` when no fragment streamed.
pub open spec fn merged_tool_calls(
    calls: Option<Vec<ChatCompletionMessageFunctionToolCall>>,
    cs: Seq<ChatCompletionChunkChoice>,
) -> bool {
    let fs = all_fragments(cs);
    let indices = sorted_distinct_spec(fragment_indices(fs));
    if fs.len() == 0 {
        calls is None
    } else {
        calls matches Some(v) && v@.len() == indices.len() && forall|k: int|
            0 <= k < indices.len() ==> #[trigger] merged_call(v@[k], fragments_with_index(fs, indices[k]))
    }
}


/// A tool call being merged from its fragments. Calls are kept in a vector
/// in increasing index order rather than a `BTreeMap`: the grouping needs
/// `entry`, `get_mut` and `into_values`, which vstd does not specify.
struct PendingCall {
    index: usize,
    id: String,
    name: String,
    arguments: Vec<char>,
}

spec fn pending_keys(calls: Seq<PendingCall>) -> Seq<usize> {
    calls.map_values(|c: PendingCall| c.index)
}

spec fn pending_matches(c: PendingCall, fs: Seq<ChatCompletionToolCallDelta>) -> bool {
    &&& c.id@ == last_id(fs)
    &&& c.name@ == last_name(fs)
    &&& c.arguments@ == merged_arguments(fs)
}

/// `calls` holds one pending call per fragment index of `fs`, in
/// increasing index order, each merged from the fragments of its index.
spec fn pending_of(calls: Seq<PendingCall>, fs: Seq<ChatCompletionToolCallDelta>) -> bool {
    &&& strictly_increasing(pending_keys(calls))
    &&& forall|x: usize| pending_keys(calls).contains(x) <==> fragment_indices(fs).contains(x)
    &&& forall|g: int|
        0 <= g < calls.len() ==> #[trigger] pending_matches(calls[g], fragments_with_index(fs, calls[g].index))
}

proof fn lemma_fragments_absent(fs: Seq<ChatCompletionToolCallDelta>, k: usize)
    requires
        !fragment_indices(fs).contains(k),
    ensures
        fragments_with_index(fs, k) == Seq::<ChatCompletionToolCallDelta>::empty(),
    decreases fs.len(),
{
    if fs.len() > 0 {
        let init = fs.drop_last();
        assert(fragment_indices(fs)[fs.len() - 1] == fs.last().index);
        assert forall|x: usize| fragment_indices(init).contains(x) implies fragment_indices(fs).contains(x) by {
            let j = choose|j: int| 0 <= j < fragment_indices(init).len() && fragment_indices(init)[j] == x;
            assert(fragment_indices(fs)[j] == x);
        }
        lemma_fragments_absent(init, k);
    }
}

proof fn lemma_fragment_indices_push(fs: Seq<ChatCompletionToolCallDelta>, f: ChatCompletionToolCallDelta)
    ensures
        fragment_indices(fs.push(f)) == fragment_indices(fs).push(f.index),
        fs.push(f).drop_last() == fs,
        fs.push(f).last() == f,
{
    assert(fragment_indices(fs.push(f)) =~= fragment_indices(fs).push(f.index));
    assert(fs.push(f).drop_last() =~= fs);
}

/// Applies one fragment to a pending call: a streamed id or name replaces
/// the one held, streamed arguments are appended.
fn apply_fragment(call: &mut PendingCall, f: &ChatCompletionToolCallDelta)
    ensures
        final(call).index == old(call).index,
        final(call).id@ == (match f.id {
            Some(id) => id@,
            None => old(call).id@,
        }),
        final(call).name@ == (match f.function {
            Some(func) => match func.name {
                Some(n) => n@,
                None => old(call).name@,
            },
            None => old(call).name@,
        }),
        final(call).arguments@ == old(call).arguments@ + arguments_fragment(*f),
{
    match &f.id {
        Some(id) => {
            call.id = id.clone();
        },
        None => {},
    }
    match &f.function {
        Some(func) => {
            match &func.name {
                Some(n) => {
                    call.name = n.clone();
                },
                None => {},
            }
            match &func.arguments {
                Some(a) => {
                    push_string_chars(&mut call.arguments, a);
                },
                None => {
                    assert(call.arguments@ =~= call.arguments@ + Seq::<char>::empty());
                },
            }
        },
        None => {
            assert(call.arguments@ =~= call.arguments@ + Seq::<char>::empty());
        },
    }
}

/// Adds fragment `f`, which follows the fragments `fs`, to the pending calls.
#[verifier::loop_isolation(false)]
fn add_fragment(
    calls: &mut Vec<PendingCall>,
    f: &ChatCompletionToolCallDelta,
    Ghost(fs): Ghost<Seq<ChatCompletionToolCallDelta>>,
)
    requires
        pending_of(old(calls)@, fs),
    ensures
        pending_of(final(calls)@, fs.push(*f)),
{
    let ghost old_calls = calls@;
    let ghost fs2 = fs.push(*f);
    proof {
        lemma_fragment_indices_push(fs, *f);
    }
    let mut p: usize = 0;
    while p < calls.len() && calls[p].index < f.index
        invariant
            p <= calls.len(),
            calls@ == old_calls,
            forall|q: int| 0 <= q < p ==> (#[trigger] calls@[q]).index < f.index,
        decreases calls.len() - p,
    {
        p = p + 1;
    }
    assert forall|g: int| 0 <= g < old_calls.len() implies (#[trigger] pending_keys(old_calls)[g]) == old_calls[g].index by {}
    if p < calls.len() && calls[p].index == f.index {
        let mut call = calls.remove(p);
        apply_fragment(&mut call, f);
        calls.insert(p, call);
        proof {
            assert(calls@ =~= old_calls.update(p as int, call));
            assert(pending_keys(calls@) =~= pending_keys(old_calls));
            assert forall|x: usize| pending_keys(calls@).contains(x) <==> fragment_indices(fs2).contains(x) by {
                if x == f.index {
                    assert(pending_keys(calls@)[p as int] == x);
                    assert(fragment_indices(fs2)[fs.len() as int] == x);
                }
                if fragment_indices(fs2).contains(x) && x != f.index {
                    let j = choose|j: int| 0 <= j < fragment_indices(fs2).len() && fragment_indices(fs2)[j] == x;
                    assert(fragment_indices(fs)[j] == x);
                }
                if fragment_indices(fs).contains(x) {
                    let j = choose|j: int| 0 <= j < fragment_indices(fs).len() && fragment_indices(fs)[j] == x;
                    assert(fragment_indices(fs2)[j] == x);
                }
            }
            assert forall|g: int| 0 <= g < calls@.len() implies #[trigger] pending_matches(
                calls@[g],
                fragments_with_index(fs2, calls@[g].index),
            ) by {
                if g == p {
                    assert(fragments_with_index(fs2, f.index) == fragments_with_index(fs, f.index).push(*f));
                    assert(fragments_with_index(fs, f.index).push(*f).drop_last() =~= fragments_with_index(fs, f.index));
                    assert(pending_matches(old_calls[g], fragments_with_index(fs, old_calls[g].index)));
                } else {
                    assert(pending_keys(old_calls)[g] != pending_keys(old_calls)[p as int]);
                    assert(fragments_with_index(fs2, calls@[g].index) == fragments_with_index(fs, calls@[g].index));
                    assert(pending_matches(old_calls[g], fragments_with_index(fs, old_calls[g].index)));
                }
            }
        }
    } else {
        let mut call = PendingCall { index: f.index, id: String::new(), name: String::new(), arguments: Vec::new() };
        proof {
            assert(!pending_keys(old_calls).contains(f.index)) by {
                if pending_keys(old_calls).contains(f.index) {
                    let j = choose|j: int| 0 <= j < pending_keys(old_calls).len() && pending_keys(old_calls)[j] == f.index;
                    if j < p {
                    } else if j > p {
                        assert(pending_keys(old_calls)[p as int] < pending_keys(old_calls)[j]);
                    }
                }
            }
            lemma_fragments_absent(fs, f.index);
        }
        let ghost empty_call = call;
        apply_fragment(&mut call, f);
        calls.insert(p, call);
        proof {
            let e = Seq::<ChatCompletionToolCallDelta>::empty();
            assert(fragments_with_index(fs2, f.index) == e.push(*f));
            assert(e.push(*f).drop_last() =~= e);
            assert(e.push(*f).last() == *f);
            assert(pending_matches(call, e.push(*f))) by {
                assert(last_id(e) == Seq::<char>::empty());
                assert(last_name(e) == Seq::<char>::empty());
                assert(empty_call.id@ == Seq::<char>::empty());
                assert(empty_call.name@ == Seq::<char>::empty());
                assert(call.id@ == last_id(e.push(*f)));
                assert(call.name@ == last_name(e.push(*f)));
                assert(empty_call.arguments@ + arguments_fragment(*f) =~= arguments_fragment(*f));
                assert(merged_arguments(e.push(*f)) =~= merged_arguments(e) + arguments_fragment(*f));
            }
            assert(pending_keys(calls@) =~= pending_keys(old_calls).insert(p as int, f.index));
            assert forall|a: int, b: int| 0 <= a < b < pending_keys(calls@).len() implies pending_keys(calls@)[a] < pending_keys(calls@)[b] by {
                let ks = pending_keys(old_calls);
                if b < p {
                    assert(pending_keys(calls@)[a] == ks[a] && pending_keys(calls@)[b] == ks[b]);
                } else if b == p {
                    assert(pending_keys(calls@)[a] == ks[a]);
                } else if a == p {
                    assert(pending_keys(calls@)[b] == ks[b - 1]);
                    assert(ks[p as int] > f.index);
                    assert(ks[p as int] <= ks[b - 1]);
                } else if a < p {
                    assert(pending_keys(calls@)[b] == ks[b - 1]);
                    assert(pending_keys(calls@)[a] == ks[a]);
                } else {
                    assert(pending_keys(calls@)[b] == ks[b - 1]);
                    assert(pending_keys(calls@)[a] == ks[a - 1]);
                }
            }
            assert forall|x: usize| pending_keys(calls@).contains(x) <==> fragment_indices(fs2).contains(x) by {
                let ks = pending_keys(old_calls);
                if x == f.index {
                    assert(pending_keys(calls@)[p as int] == x);
                    assert(fragment_indices(fs2)[fs.len() as int] == x);
                } else {
                    if pending_keys(calls@).contains(x) {
                        let j = choose|j: int| 0 <= j < pending_keys(calls@).len() && pending_keys(calls@)[j] == x;
                        if j < p {
                            assert(ks[j] == x);
                        } else {
                            assert(ks[j - 1] == x);
                        }
                        assert(ks.contains(x));
                        let m = choose|m: int| 0 <= m < fragment_indices(fs).len() && fragment_indices(fs)[m] == x;
                        assert(fragment_indices(fs2)[m] == x);
                    }
                    if fragment_indices(fs2).contains(x) {
                        let j = choose|j: int| 0 <= j < fragment_indices(fs2).len() && fragment_indices(fs2)[j] == x;
                        assert(fragment_indices(fs)[j] == x);
                        assert(ks.contains(x));
                        let m = choose|m: int| 0 <= m < ks.len() && ks[m] == x;
                        if m < p {
                            assert(pending_keys(calls@)[m] == x);
                        } else {
                            assert(pending_keys(calls@)[m + 1] == x);
                        }
                    }
                }
            }
            assert forall|g: int| 0 <= g < calls@.len() implies #[trigger] pending_matches(
                calls@[g],
                fragments_with_index(fs2, calls@[g].index),
            ) by {
                if g == p {
                } else {
                    let og = if g < p { g } else { g - 1 };
                    assert(calls@[g] == old_calls[og]);
                    assert(pending_keys(old_calls)[og] == old_calls[og].index);
                    assert(old_calls[og].index != f.index);
                    assert(fragments_with_index(fs2, calls@[g].index) == fragments_with_index(fs, calls@[g].index));
                    assert(pending_matches(old_calls[og], fragments_with_index(fs, old_calls[og].index)));
                }
            }
        }
    }
}


proof fn lemma_all_fragments_take(cs: Seq<ChatCompletionChunkChoice>, i: int)
    requires
        0 <= i < cs.len(),
    ensures
        all_fragments(cs.take(i + 1)) == all_fragments(cs.take(i)) + choice_fragments(cs[i]),
{
    assert(cs.take(i + 1).drop_last() =~= cs.take(i));
}

/// Accumulates streamed tool call fragments into completed tool calls,
/// one per fragment index in increasing index order: the last streamed id
/// and function name are kept, and argument fragments are joined.
#[verifier::loop_isolation(false)]
pub fn merge_tool_calls(choices: &[ChatCompletionChunkChoice]) -> (r: Option<Vec<ChatCompletionMessageFunctionToolCall>>)
    ensures
        merged_tool_calls(r, choices@),
{
    let mut calls: Vec<PendingCall> = Vec::new();
    let mut i: usize = 0;
    assert(choices@.take(0) =~= Seq::<ChatCompletionChunkChoice>::empty());
    while i < choices.len()
        invariant
            i <= choices.len(),
            pending_of(calls@, all_fragments(choices@.take(i as int))),
        decreases choices.len() - i,
    {
        let ghost before = all_fragments(choices@.take(i as int));
        proof {
            lemma_all_fragments_take(choices@, i as int);
        }
        match &choices[i].delta {
            Some(d) => match &d.tool_calls {
                Some(frs) => {
                    let mut j: usize = 0;
                    assert(before + frs@.take(0) =~= before);
                    while j < frs.len()
                        invariant
                            j <= frs.len(),
                            pending_of(calls@, before + frs@.take(j as int)),
                        decreases frs.len() - j,
                    {
                        assert((before + frs@.take(j as int)).push(frs@[j as int]) =~= before + frs@.take(j + 1));
                        add_fragment(&mut calls, &frs[j], Ghost(before + frs@.take(j as int)));
                        j = j + 1;
                    }
                    assert(frs@.take(frs.len() as int) =~= frs@);
                },
                None => {
                    assert(before + Seq::<ChatCompletionToolCallDelta>::empty() =~= before);
                },
            },
            None => {
                assert(before + Seq::<ChatCompletionToolCallDelta>::empty() =~= before);
            },
        }
        i = i + 1;
    }
    assert(choices@.take(choices.len() as int) =~= choices@);
    let ghost fs = all_fragments(choices@);
    if calls.len() == 0 {
        proof {
            if fs.len() > 0 {
                assert(fragment_indices(fs)[0] == fs[0].index);
                assert(fragment_indices(fs).contains(fs[0].index));
                assert(pending_keys(calls@).len() == 0);
            }
        }
        return None;
    }
    proof {
        let ks = pending_keys(calls@);
        assert(ks.contains(ks[0]));
        let m = choose|m: int| 0 <= m < fragment_indices(fs).len() && fragment_indices(fs)[m] == ks[0];
        assert(fs.len() > 0);
        lemma_sorted_distinct_is(fragment_indices(fs), ks);
    }
    let mut out: Vec<ChatCompletionMessageFunctionToolCall> = Vec::new();
    let mut k: usize = 0;
    while k < calls.len()
        invariant
            k <= calls.len(),
            out@.len() == k,
            forall|q: int| 0 <= q < k ==> #[trigger] merged_call(out@[q], fragments_with_index(fs, calls@[q].index)),
        decreases calls.len() - k,
    {
        let c = &calls[k];
        let call = ChatCompletionMessageFunctionToolCall {
            id: c.id.clone(),
            kind: owned("function"),
            function: ChatCompletionToolCallFunction {
                name: c.name.clone(),
                arguments: string_from_chars(c.arguments.as_slice()),
            },
        };
        proof {
            assert(pending_matches(calls@[k as int], fragments_with_index(fs, calls@[k as int].index)));
        }
        out.push(call);
        k = k + 1;
    }
    proof {
        let indices = sorted_distinct_spec(fragment_indices(fs));
        assert forall|q: int| 0 <= q < indices.len() implies #[trigger] merged_call(out@[q], fragments_with_index(fs, indices[q])) by {
            assert(pending_keys(calls@)[q] == calls@[q].index);
        }
    }
    Some(out)
}


/// `ch` is the completion choice `index` merged from its streamed choices
/// `cs`: the first role (`assistant` by default), the content fragments
/// joined, the reasoning fragments joined (absent when empty), the merged
/// tool calls and the first finish reason.
pub open spec fn completion_choice_from(ch: ChatCompletionChoice, index: usize, cs: Seq<ChatCompletionChunkChoice>) -> bool {
    &&& ch.index == index
    &&& ch.message.role@ == merged_role(cs)
    &&& ch.message.content matches Some(ChatCompletionContent::Text(t)) && t@ == merged_content(cs)
    &&& if merged_reasoning(cs).len() == 0 {
        ch.message.reasoning_content is None
    } else {
        ch.message.reasoning_content matches Some(r) && r@ == merged_reasoning(cs)
    }
    &&& merged_tool_calls(ch.message.tool_calls, cs)
    &&& ch.message.tool_call_id is None
    &&& ch.finish_reason == merged_finish_reason(cs)
}

/// Merges the streamed choices of one index into a completion choice.
#[verifier::loop_isolation(false)]
pub fn create_completion_choice(index: usize, choices: Vec<ChatCompletionChunkChoice>) -> (r: ChatCompletionChoice)
    ensures
        completion_choice_from(r, index, choices@),
{
    let ghost cs = choices@;
    let mut role: Option<String> = None;
    let mut finish_reason: Option<String> = None;
    let mut content: Vec<char> = Vec::new();
    let mut reasoning: Vec<char> = Vec::new();
    let ghost mut role_at: int = 0;
    let ghost mut finish_at: int = 0;
    let mut i: usize = 0;
    assert(cs.take(0) =~= Seq::<ChatCompletionChunkChoice>::empty());
    while i < choices.len()
        invariant
            i <= choices.len(),
            content@ == merged_content(cs.take(i as int)),
            reasoning@ == merged_reasoning(cs.take(i as int)),
            role is None ==> forall|j: int| 0 <= j < i ==> !(#[trigger] role_pred()(cs[j])),
            role matches Some(rl) ==> 0 <= role_at < i && role_pred()(cs[role_at]) && rl
                == cs[role_at].delta.unwrap().role.unwrap() && forall|j: int|
                0 <= j < role_at ==> !(#[trigger] role_pred()(cs[j])),
            finish_reason is None ==> forall|j: int| 0 <= j < i ==> !(#[trigger] finish_pred()(cs[j])),
            finish_reason matches Some(fr) ==> 0 <= finish_at < i && finish_pred()(cs[finish_at])
                && Some(fr) == cs[finish_at].finish_reason && forall|j: int|
                0 <= j < finish_at ==> !(#[trigger] finish_pred()(cs[j])),
        decreases choices.len() - i,
    {
        let c = &choices[i];
        assert(cs.take(i + 1).drop_last() =~= cs.take(i as int));
        match &c.delta {
            Some(d) => {
                if role.is_none() {
                    match &d.role {
                        Some(rl) => {
                            role = Some(rl.clone());
                            proof {
                                role_at = i as int;
                            }
                        },
                        None => {},
                    }
                }
                match &d.content {
                    Some(t) => push_string_chars(&mut content, t),
                    None => {
                        assert(content@ =~= content@ + Seq::<char>::empty());
                    },
                }
                match &d.reasoning_content {
                    Some(t) => push_string_chars(&mut reasoning, t),
                    None => {
                        assert(reasoning@ =~= reasoning@ + Seq::<char>::empty());
                    },
                }
            },
            None => {
                assert(content@ =~= content@ + Seq::<char>::empty());
                assert(reasoning@ =~= reasoning@ + Seq::<char>::empty());
            },
        }
        if finish_reason.is_none() {
            match &c.finish_reason {
                Some(fr) => {
                    finish_reason = Some(fr.clone());
                    proof {
                        finish_at = i as int;
                    }
                },
                None => {},
            }
        }
        i = i + 1;
    }
    assert(cs.take(cs.len() as int) =~= cs);
    proof {
        crate::params::lemma_first_index_where(cs, role_pred(), 0);
        crate::params::lemma_first_index_where(cs, finish_pred(), 0);
        let fr = crate::params::first_index_where(cs, role_pred(), 0);
        let ff = crate::params::first_index_where(cs, finish_pred(), 0);
        if role is Some {
            if fr < role_at {
                assert(role_pred()(cs[fr]));
            }
            if role_at < fr {
                assert(!role_pred()(cs[role_at]));
            }
        } else if fr < cs.len() {
            assert(role_pred()(cs[fr]));
        }
        if finish_reason is Some {
            if ff < finish_at {
                assert(finish_pred()(cs[ff]));
            }
            if finish_at < ff {
                assert(!finish_pred()(cs[finish_at]));
            }
        } else if ff < cs.len() {
            assert(finish_pred()(cs[ff]));
        }
    }
    let role = match role {
        Some(rl) => rl,
        None => owned("assistant"),
    };
    let reasoning_content = if reasoning.len() == 0 {
        None
    } else {
        Some(string_from_chars(reasoning.as_slice()))
    };
    let tool_calls = merge_tool_calls(choices.as_slice());
    ChatCompletionChoice {
        index,
        message: ChatCompletionMessage {
            role,
            content: Some(ChatCompletionContent::Text(string_from_chars(content.as_slice()))),
            reasoning_content,
            tool_calls,
            tool_call_id: None,
        },
        finish_reason,
    }
}


/// The streamed choices of one index, in order. Groups are kept in a
/// vector in increasing index order rather than a `BTreeMap`: the grouping
/// needs `entry`, `get_mut` and `into_iter`, which vstd does not specify.
struct ChoiceGroup {
    index: usize,
    choices: Vec<ChatCompletionChunkChoice>,
}

spec fn group_keys(groups: Seq<ChoiceGroup>) -> Seq<usize> {
    groups.map_values(|g: ChoiceGroup| g.index)
}

/// `groups` holds one group per choice index of `cs`, in increasing index
/// order, each with the choices of its index in order.
spec fn groups_of(groups: Seq<ChoiceGroup>, cs: Seq<ChatCompletionChunkChoice>) -> bool {
    &&& strictly_increasing(group_keys(groups))
    &&& forall|x: usize| group_keys(groups).contains(x) <==> choice_indices(cs).contains(x)
    &&& forall|g: int| 0 <= g < groups.len() ==> (#[trigger] groups[g]).choices@ == with_index(cs, groups[g].index)
}

proof fn lemma_choices_absent(cs: Seq<ChatCompletionChunkChoice>, k: usize)
    requires
        !choice_indices(cs).contains(k),
    ensures
        with_index(cs, k) == Seq::<ChatCompletionChunkChoice>::empty(),
    decreases cs.len(),
{
    if cs.len() > 0 {
        let init = cs.drop_last();
        assert(choice_indices(cs)[cs.len() - 1] == cs.last().index);
        assert forall|x: usize| choice_indices(init).contains(x) implies choice_indices(cs).contains(x) by {
            let j = choose|j: int| 0 <= j < choice_indices(init).len() && choice_indices(init)[j] == x;
            assert(choice_indices(cs)[j] == x);
        }
        lemma_choices_absent(init, k);
    }
}

/// Adds choice `c`, which follows the choices `cs`, to its group.
#[verifier::loop_isolation(false)]
fn add_choice(groups: &mut Vec<ChoiceGroup>, c: ChatCompletionChunkChoice, Ghost(cs): Ghost<Seq<ChatCompletionChunkChoice>>)
    requires
        groups_of(old(groups)@, cs),
    ensures
        groups_of(final(groups)@, cs.push(c)),
{
    let ghost old_groups = groups@;
    let ghost cs2 = cs.push(c);
    assert(choice_indices(cs2) =~= choice_indices(cs).push(c.index));
    assert(cs2.drop_last() =~= cs);
    let idx = c.index;
    let mut p: usize = 0;
    while p < groups.len() && groups[p].index < idx
        invariant
            p <= groups.len(),
            groups@ == old_groups,
            forall|q: int| 0 <= q < p ==> (#[trigger] groups@[q]).index < idx,
        decreases groups.len() - p,
    {
        p = p + 1;
    }
    assert forall|g: int| 0 <= g < old_groups.len() implies (#[trigger] group_keys(old_groups)[g]) == old_groups[g].index by {}
    if p < groups.len() && groups[p].index == idx {
        let mut group = groups.remove(p);
        let ghost before = group.choices@;
        group.choices.push(c);
        groups.insert(p, group);
        proof {
            assert(groups@ =~= old_groups.update(p as int, group));
            assert(group_keys(groups@) =~= group_keys(old_groups));
            assert forall|x: usize| group_keys(groups@).contains(x) <==> choice_indices(cs2).contains(x) by {
                if x == idx {
                    assert(group_keys(groups@)[p as int] == x);
                    assert(choice_indices(cs2)[cs.len() as int] == x);
                }
                if choice_indices(cs2).contains(x) && x != idx {
                    let j = choose|j: int| 0 <= j < choice_indices(cs2).len() && choice_indices(cs2)[j] == x;
                    assert(choice_indices(cs)[j] == x);
                }
                if choice_indices(cs).contains(x) {
                    let j = choose|j: int| 0 <= j < choice_indices(cs).len() && choice_indices(cs)[j] == x;
                    assert(choice_indices(cs2)[j] == x);
                }
            }
            assert forall|g: int| 0 <= g < groups@.len() implies (#[trigger] groups@[g]).choices@ == with_index(cs2, groups@[g].index) by {
                if g != p {
                    assert(group_keys(old_groups)[g] != group_keys(old_groups)[p as int]);
                }
            }
        }
    } else {
        proof {
            assert(!group_keys(old_groups).contains(idx)) by {
                if group_keys(old_groups).contains(idx) {
                    let j = choose|j: int| 0 <= j < group_keys(old_groups).len() && group_keys(old_groups)[j] == idx;
                    if j > p {
                        assert(group_keys(old_groups)[p as int] < group_keys(old_groups)[j]);
                    }
                }
            }
            lemma_choices_absent(cs, idx);
        }
        let mut members: Vec<ChatCompletionChunkChoice> = Vec::new();
        members.push(c);
        let group = ChoiceGroup { index: idx, choices: members };
        groups.insert(p, group);
        proof {
            let e = Seq::<ChatCompletionChunkChoice>::empty();
            assert(with_index(cs2, idx) == e.push(c));
            assert(group.choices@ =~= e.push(c));
            assert(group_keys(groups@) =~= group_keys(old_groups).insert(p as int, idx));
            assert forall|a: int, b: int| 0 <= a < b < group_keys(groups@).len() implies group_keys(groups@)[a] < group_keys(groups@)[b] by {
                let ks = group_keys(old_groups);
                if b < p {
                    assert(group_keys(groups@)[a] == ks[a] && group_keys(groups@)[b] == ks[b]);
                } else if b == p {
                    assert(group_keys(groups@)[a] == ks[a]);
                } else if a == p {
                    assert(group_keys(groups@)[b] == ks[b - 1]);
                    assert(ks[p as int] > idx);
                    assert(ks[p as int] <= ks[b - 1]);
                } else if a < p {
                    assert(group_keys(groups@)[b] == ks[b - 1]);
                    assert(group_keys(groups@)[a] == ks[a]);
                } else {
                    assert(group_keys(groups@)[b] == ks[b - 1]);
                    assert(group_keys(groups@)[a] == ks[a - 1]);
                }
            }
            assert forall|x: usize| group_keys(groups@).contains(x) <==> choice_indices(cs2).contains(x) by {
                let ks = group_keys(old_groups);
                if x == idx {
                    assert(group_keys(groups@)[p as int] == x);
                    assert(choice_indices(cs2)[cs.len() as int] == x);
                } else {
                    if group_keys(groups@).contains(x) {
                        let j = choose|j: int| 0 <= j < group_keys(groups@).len() && group_keys(groups@)[j] == x;
                        if j < p {
                            assert(ks[j] == x);
                        } else {
                            assert(ks[j - 1] == x);
                        }
                        assert(ks.contains(x));
                        let m = choose|m: int| 0 <= m < choice_indices(cs).len() && choice_indices(cs)[m] == x;
                        assert(choice_indices(cs2)[m] == x);
                    }
                    if choice_indices(cs2).contains(x) {
                        let j = choose|j: int| 0 <= j < choice_indices(cs2).len() && choice_indices(cs2)[j] == x;
                        assert(choice_indices(cs)[j] == x);
                        assert(ks.contains(x));
                        let m = choose|m: int| 0 <= m < ks.len() && ks[m] == x;
                        if m < p {
                            assert(group_keys(groups@)[m] == x);
                        } else {
                            assert(group_keys(groups@)[m + 1] == x);
                        }
                    }
                }
            }
            assert forall|g: int| 0 <= g < groups@.len() implies (#[trigger] groups@[g]).choices@ == with_index(cs2, groups@[g].index) by {
                if g != p {
                    let og = if g < p { g } else { g - 1 };
                    assert(groups@[g] == old_groups[og]);
                    assert(group_keys(old_groups)[og] == old_groups[og].index);
                }
            }
        }
    }
}


/// The sum of `field` over the usages that `chunks` report.
pub open spec fn usage_sum(chunks: Seq<ChatCompletionChunk>, field: spec_fn(ChatCompletionUsage) -> nat) -> nat
    decreases chunks.len(),
{
    if chunks.len() == 0 {
        0
    } else {
        usage_sum(chunks.drop_last(), field) + match chunks.last().usage {
            Some(u) => field(u),
            None => 0,
        }
    }
}

pub open spec fn prompt_tokens_of() -> spec_fn(ChatCompletionUsage) -> nat {
    |u: ChatCompletionUsage| u.prompt_tokens as nat
}

pub open spec fn completion_tokens_of() -> spec_fn(ChatCompletionUsage) -> nat {
    |u: ChatCompletionUsage| u.completion_tokens as nat
}

pub open spec fn total_tokens_of() -> spec_fn(ChatCompletionUsage) -> nat {
    |u: ChatCompletionUsage| u.total_tokens as nat
}

/// The prompt token details of the last usage among `chunks` that reports them.
pub open spec fn last_prompt_details(chunks: Seq<ChatCompletionChunk>) -> Option<PromptTokensDetails>
    decreases chunks.len(),
{
    if chunks.len() == 0 {
        None
    } else {
        match chunks.last().usage {
            Some(u) => match u.prompt_tokens_details {
                Some(d) => Some(d),
                None => last_prompt_details(chunks.drop_last()),
            },
            None => last_prompt_details(chunks.drop_last()),
        }
    }
}

/// The completion token details of the last usage among `chunks` that reports them.
pub open spec fn last_completion_details(chunks: Seq<ChatCompletionChunk>) -> Option<CompletionTokensDetails>
    decreases chunks.len(),
{
    if chunks.len() == 0 {
        None
    } else {
        match chunks.last().usage {
            Some(u) => match u.completion_tokens_details {
                Some(d) => Some(d),
                None => last_completion_details(chunks.drop_last()),
            },
            None => last_completion_details(chunks.drop_last()),
        }
    }
}

/// The usage of a merged completion: token counts summed over the chunks,
/// token details taken from the last chunk that reports them.
pub open spec fn merged_usage(chunks: Seq<ChatCompletionChunk>) -> ChatCompletionUsage {
    ChatCompletionUsage {
        prompt_tokens: usage_sum(chunks, prompt_tokens_of()) as u32,
        completion_tokens: usage_sum(chunks, completion_tokens_of()) as u32,
        total_tokens: usage_sum(chunks, total_tokens_of()) as u32,
        prompt_tokens_details: last_prompt_details(chunks),
        completion_tokens_details: last_completion_details(chunks),
    }
}

/// The token sums of `chunks` fit the usage counters.
pub open spec fn usage_fits(chunks: Seq<ChatCompletionChunk>) -> bool {
    &&& usage_sum(chunks, prompt_tokens_of()) <= u32::MAX
    &&& usage_sum(chunks, completion_tokens_of()) <= u32::MAX
    &&& usage_sum(chunks, total_tokens_of()) <= u32::MAX
}

/// `c` is the completion merged from the nonempty stream `chunks`: the
/// identity of the first chunk, one choice per streamed choice index in
/// increasing index order, and the merged usage.
pub open spec fn merged_completion(c: ChatCompletion, chunks: Seq<ChatCompletionChunk>) -> bool {
    let all = chunk_choices(chunks);
    let indices = sorted_distinct_spec(choice_indices(all));
    &&& c.object@ == "chat.completion"@
    &&& c.id == chunks[0].id
    &&& c.model == chunks[0].model
    &&& c.created == chunks[0].created
    &&& c.choices@.len() == indices.len()
    &&& forall|k: int|
        0 <= k < indices.len() ==> #[trigger] completion_choice_from(c.choices@[k], indices[k], with_index(all, indices[k]))
    &&& c.usage == Some(merged_usage(chunks))
}

proof fn lemma_usage_sum_prefix(chunks: Seq<ChatCompletionChunk>, n: int, field: spec_fn(ChatCompletionUsage) -> nat)
    requires
        0 <= n <= chunks.len(),
    ensures
        usage_sum(chunks.take(n), field) <= usage_sum(chunks, field),
    decreases chunks.len(),
{
    if n == chunks.len() {
        assert(chunks.take(n) =~= chunks);
    } else {
        lemma_usage_sum_prefix(chunks.drop_last(), n, field);
        assert(chunks.drop_last().take(n) =~= chunks.take(n));
    }
}

/// Merges the chunks of a streamed chat completion into one completion.
#[verifier::loop_isolation(false)]
pub fn merge_chunks(chunks: Vec<ChatCompletionChunk>) -> (r: Result<ChatCompletion, MunaError>)
    requires
        usage_fits(chunks@),
    ensures
        r is Err <==> chunks@.len() == 0,
        r matches Err(e) ==> (e matches MunaError::Prediction(m)
            && m@ == "Failed to parse chat completion because model did not return any outputs"@),
        r matches Ok(c) ==> merged_completion(c, chunks@),
{
    if chunks.len() == 0 {
        return Err(MunaError::Prediction(owned("Failed to parse chat completion because model did not return any outputs")));
    }
    let id = chunks[0].id.clone();
    let model = chunks[0].model.clone();
    let created = chunks[0].created;
    let ghost all_chunks = chunks@;
    let mut rest = chunks;
    let mut n: usize = 0;
    let mut groups: Vec<ChoiceGroup> = Vec::new();
    let mut prompt_tokens: u32 = 0;
    let mut completion_tokens: u32 = 0;
    let mut total_tokens: u32 = 0;
    let mut prompt_details: Option<PromptTokensDetails> = None;
    let mut completion_details: Option<CompletionTokensDetails> = None;
    assert(all_chunks.take(0) =~= Seq::<ChatCompletionChunk>::empty());
    assert(all_chunks.skip(0) =~= all_chunks);
    assert(choice_indices(Seq::<ChatCompletionChunkChoice>::empty()) =~= Seq::<usize>::empty());
    assert(group_keys(groups@) =~= Seq::<usize>::empty());
    while rest.len() > 0
        invariant
            n <= all_chunks.len(),
            rest@ == all_chunks.skip(n as int),
            groups_of(groups@, chunk_choices(all_chunks.take(n as int))),
            prompt_tokens == usage_sum(all_chunks.take(n as int), prompt_tokens_of()),
            completion_tokens == usage_sum(all_chunks.take(n as int), completion_tokens_of()),
            total_tokens == usage_sum(all_chunks.take(n as int), total_tokens_of()),
            prompt_details == last_prompt_details(all_chunks.take(n as int)),
            completion_details == last_completion_details(all_chunks.take(n as int)),
        decreases rest.len(),
    {
        let chunk = rest.remove(0);
        let ghost done = all_chunks.take(n as int);
        proof {
            assert(chunk == all_chunks[n as int]);
            assert(all_chunks.take(n + 1).drop_last() =~= done);
            assert(rest@ =~= all_chunks.skip(n + 1));
            lemma_usage_sum_prefix(all_chunks, n + 1, prompt_tokens_of());
            lemma_usage_sum_prefix(all_chunks, n + 1, completion_tokens_of());
            lemma_usage_sum_prefix(all_chunks, n + 1, total_tokens_of());
        }
        let ChatCompletionChunk { choices, usage, .. } = chunk;
        match usage {
            Some(u) => {
                prompt_tokens = prompt_tokens + u.prompt_tokens;
                completion_tokens = completion_tokens + u.completion_tokens;
                total_tokens = total_tokens + u.total_tokens;
                if u.prompt_tokens_details.is_some() {
                    prompt_details = u.prompt_tokens_details;
                }
                if u.completion_tokens_details.is_some() {
                    completion_details = u.completion_tokens_details;
                }
            },
            None => {},
        }
        let ghost prefix = chunk_choices(done);
        let ghost all_members = choices@;
        assert(all_members.len() == choices.len());
        let mut members = choices;
        let mut m: usize = 0;
        assert(prefix + all_members.take(0) =~= prefix);
        assert(all_members.skip(0) =~= all_members);
        while members.len() > 0
            invariant
                m <= all_members.len() <= usize::MAX,
                members@ == all_members.skip(m as int),
                groups_of(groups@, prefix + all_members.take(m as int)),
            decreases members.len(),
        {
            let c = members.remove(0);
            proof {
                assert(c == all_members[m as int]);
                assert((prefix + all_members.take(m as int)).push(c) =~= prefix + all_members.take(m + 1));
                assert(members@ =~= all_members.skip(m + 1));
            }
            add_choice(&mut groups, c, Ghost(prefix + all_members.take(m as int)));
            m = m + 1;
        }
        proof {
            assert(all_members.take(m as int) =~= all_members);
            assert(chunk_choices(all_chunks.take(n + 1)) == prefix + all_members);
        }
        n = n + 1;
    }
    assert(all_chunks.take(n as int) =~= all_chunks);
    let ghost all = chunk_choices(all_chunks);
    let ghost all_groups = groups@;
    assert(all_groups.len() == groups.len());
    proof {
        lemma_sorted_distinct_is(choice_indices(all), group_keys(all_groups));
    }
    let mut out: Vec<ChatCompletionChoice> = Vec::new();
    let mut k: usize = 0;
    assert(all_groups.skip(0) =~= all_groups);
    while groups.len() > 0
        invariant
            k <= all_groups.len() <= usize::MAX,
            groups@ == all_groups.skip(k as int),
            out@.len() == k,
            forall|q: int| 0 <= q < k ==> #[trigger] completion_choice_from(out@[q], all_groups[q].index, all_groups[q].choices@),
        decreases groups.len(),
    {
        let group = groups.remove(0);
        proof {
            assert(group == all_groups[k as int]);
            assert(groups@ =~= all_groups.skip(k + 1));
        }
        let ChoiceGroup { index, choices } = group;
        let choice = create_completion_choice(index, choices);
        out.push(choice);
        k = k + 1;
    }
    proof {
        let indices = sorted_distinct_spec(choice_indices(all));
        assert forall|q: int| 0 <= q < indices.len() implies #[trigger] completion_choice_from(out@[q], indices[q], with_index(all, indices[q])) by {
            assert(group_keys(all_groups)[q] == all_groups[q].index);
            assert(all_groups[q].choices@ == with_index(all, all_groups[q].index));
        }
    }
    let usage = ChatCompletionUsage {
        prompt_tokens,
        completion_tokens,
        total_tokens,
        prompt_tokens_details: prompt_details,
        completion_tokens_details: completion_details,
    };
    Ok(ChatCompletion {
        object: owned("chat.completion"),
        id,
        model,
        created,
        choices: out,
        usage: Some(usage),
    })
}

} // verus!
