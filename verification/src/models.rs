//! Model objects of the OpenAI and Anthropic dialects, derived from
//! predictor signatures. The limits and capabilities come from the
//! signature's chat denotations, so what is advertised is exactly what the
//! predictor accepts.

use vstd::prelude::*;
use crate::dates::{lemma_rfc3339_round_trip, rfc3339_seconds, unix_text, unix_to_rfc3339};
use crate::params::{denoted, find_denoted, find_denoted_spec, first_denoted, split_tag, tag_parts};
use crate::text::{lemma_split_once_concat, skip_from, trim_start};
use crate::types::{EnumerationMember, EnumerationValue, Parameter, Signature};

verus! {

/// Whether a model supports a capability.
#[derive(Debug, Clone, Copy, PartialEq, Eq, Structural)]
pub struct CapabilitySupport {
    /// Whether this capability is supported by the model.
    pub supported: bool,
}

impl CapabilitySupport {
    /// Support as given.
    pub fn from_bool(supported: bool) -> (r: Self)
        ensures
            r.supported == supported,
    {
        Self { supported }
    }
}

/// Reasoning effort levels a model accepts.
#[derive(Debug, Clone, Copy, PartialEq, Eq, Structural)]
pub struct EffortCapability {
    /// Whether the model supports an effort selector at all.
    pub supported: bool,
    /// Whether the model supports the `low` effort level.
    pub low: CapabilitySupport,
    /// Whether the model supports the `medium` effort level.
    pub medium: CapabilitySupport,
    /// Whether the model supports the `high` effort level.
    pub high: CapabilitySupport,
    /// Whether the model supports the `xhigh` effort level.
    pub xhigh: CapabilitySupport,
    /// Whether the model supports the `max` effort level.
    pub max: CapabilitySupport,
}

/// Thinking type configurations a model accepts.
#[derive(Debug, Clone, Copy, PartialEq, Eq, Structural)]
pub struct ThinkingTypes {
    /// Whether the model supports thinking with type `adaptive`.
    pub adaptive: CapabilitySupport,
    /// Whether the model supports thinking with type `enabled`.
    pub enabled: CapabilitySupport,
}

/// Thinking capability of a model.
#[derive(Debug, Clone, Copy, PartialEq, Eq, Structural)]
pub struct ThinkingCapability {
    /// Whether the model can think before answering.
    pub supported: bool,
    /// Supported thinking type configurations.
    pub types: ThinkingTypes,
}

/// Model capabilities.
#[derive(Debug, Clone, Copy, PartialEq, Eq, Structural)]
pub struct ModelCapabilities {
    /// Whether the model supports the Batch API.
    pub batch: CapabilitySupport,
    /// Whether the model supports citation generation.
    pub citations: CapabilitySupport,
    /// Whether the model supports code execution tools.
    pub code_execution: CapabilitySupport,
    /// Whether the model supports server-side context management.
    pub context_management: CapabilitySupport,
    /// Reasoning effort support and available levels.
    pub effort: EffortCapability,
    /// Whether the model accepts image content blocks.
    pub image_input: CapabilitySupport,
    /// Whether the model accepts PDF content blocks.
    pub pdf_input: CapabilitySupport,
    /// Whether the model supports structured outputs.
    pub structured_outputs: CapabilitySupport,
    /// Thinking capability and supported type configurations.
    pub thinking: ThinkingCapability,
}

/// Anthropic `ModelInfo` object.
#[derive(Debug, Clone, PartialEq, Eq)]
pub struct ModelInfo {
    /// Model identifier (the predictor tag).
    pub id: String,
    /// Object type, always `model`.
    pub kind: String,
    /// Human-readable name, the tag's `name`.
    pub display_name: String,
    /// Release time as an RFC 3339 timestamp; the epoch when unknown.
    pub created_at: String,
    /// Maximum input context window in tokens.
    pub max_input_tokens: Option<u32>,
    /// Maximum value of the `max_tokens` parameter.
    pub max_tokens: Option<u32>,
    /// Model capabilities.
    pub capabilities: ModelCapabilities,
}

/// OpenAI `Model` object: exactly the four fields OpenAI documents.
#[derive(Debug, Clone, PartialEq, Eq)]
pub struct Model {
    /// Model identifier (the predictor tag).
    pub id: String,
    /// Object type, always `model`.
    pub object: String,
    /// Creation time in Unix seconds.
    pub created: u64,
    /// Model owner, the tag's `@owner`.
    pub owned_by: String,
}

/// The enumeration member's value is the string `level`.
pub open spec fn member_is_level(m: EnumerationMember, level: Seq<char>) -> bool {
    match m.value {
        EnumerationValue::String(v) => v@ == level,
        _ => false,
    }
}

/// Whether the reasoning effort selector accepts `level`: `None` when the
/// model has no selector; every level when the selector is free text (no
/// enumeration); otherwise the levels its enumeration lists.
pub open spec fn effort_accepts(inputs: Seq<Parameter>, level: Seq<char>) -> Option<bool> {
    match find_denoted_spec(inputs, "openai.chat.completions.reasoning_effort"@) {
        None => None,
        Some(p) => Some(
            match p.enumeration {
                Some(members) => exists|i: int|
                    0 <= i < members@.len() && member_is_level(#[trigger] members@[i], level),
                None => true,
            },
        ),
    }
}

/// The model's total context window in tokens, from the chat messages input.
pub open spec fn context_length_of(inputs: Seq<Parameter>) -> Option<u32> {
    match find_denoted_spec(inputs, "openai.chat.completions.messages"@) {
        Some(p) => p.context_length,
        None => None,
    }
}

/// The ceiling on output tokens, from the `max_output_tokens` input's range.
pub open spec fn max_output_tokens_of(inputs: Seq<Parameter>) -> Option<u32> {
    match find_denoted_spec(inputs, "openai.chat.completions.max_output_tokens"@) {
        Some(p) => p.max,
        None => None,
    }
}

/// Support that an effort level has: whether the selector accepts it.
pub open spec fn level_support(inputs: Seq<Parameter>, level: Seq<char>) -> CapabilitySupport {
    CapabilitySupport {
        supported: match effort_accepts(inputs, level) {
            Some(b) => b,
            None => false,
        },
    }
}

/// The capabilities that the chat denotations of `inputs` advertise.
pub open spec fn capabilities_of(inputs: Seq<Parameter>) -> ModelCapabilities {
    let thinking = effort_accepts(inputs, "low"@) is Some;
    let no = CapabilitySupport { supported: false };
    ModelCapabilities {
        batch: no,
        citations: no,
        code_execution: no,
        context_management: no,
        effort: EffortCapability {
            supported: thinking,
            low: level_support(inputs, "low"@),
            medium: level_support(inputs, "medium"@),
            high: level_support(inputs, "high"@),
            xhigh: level_support(inputs, "xhigh"@),
            max: level_support(inputs, "max"@),
        },
        image_input: CapabilitySupport {
            supported: find_denoted_spec(inputs, "openai.chat.completions.images"@) is Some,
        },
        pdf_input: no,
        structured_outputs: CapabilitySupport {
            supported: find_denoted_spec(inputs, "openai.chat.completions.response_format"@) is Some,
        },
        thinking: ThinkingCapability {
            supported: thinking,
            types: ThinkingTypes { adaptive: no, enabled: CapabilitySupport { supported: thinking } },
        },
    }
}

/// Whether some input carries denotation `d`.
pub open spec fn has_denoted(inputs: Seq<Parameter>, d: Seq<char>) -> bool {
    exists|k: int| 0 <= k < inputs.len() && (#[trigger] inputs[k]).denotation is Some && inputs[k].denotation.unwrap()@ == d
}

proof fn lemma_find_denoted_exists(inputs: Seq<Parameter>, d: Seq<char>)
    ensures
        (find_denoted_spec(inputs, d) is Some) == has_denoted(inputs, d),
{
    crate::params::lemma_first_index_where(inputs, |p: Parameter| denoted(p, d), 0);
    let i = first_denoted(inputs, d);
    if i < inputs.len() {
        assert(denoted(inputs[i], d));
    } else if has_denoted(inputs, d) {
        let k = choose|k: int| 0 <= k < inputs.len() && (#[trigger] inputs[k]).denotation is Some && inputs[k].denotation.unwrap()@ == d;
        assert(denoted(inputs[k], d));
    }
}

/// A model advertises structured outputs exactly when one of its inputs
/// carries the response format denotation, and image input exactly when
/// one carries the images denotation, whatever its other inputs (the
/// reasoning effort selector among them). Thinking and effort are
/// advertised together, exactly when it has a reasoning effort input.
pub proof fn lemma_capabilities_follow_denotations(inputs: Seq<Parameter>)
    ensures
        capabilities_of(inputs).structured_outputs.supported == has_denoted(
            inputs,
            "openai.chat.completions.response_format"@,
        ),
        capabilities_of(inputs).image_input.supported == has_denoted(inputs, "openai.chat.completions.images"@),
        capabilities_of(inputs).thinking.supported == has_denoted(inputs, "openai.chat.completions.reasoning_effort"@),
        capabilities_of(inputs).effort.supported == capabilities_of(inputs).thinking.supported,
        capabilities_of(inputs).thinking.types.enabled.supported == capabilities_of(inputs).thinking.supported,
{
    lemma_find_denoted_exists(inputs, "openai.chat.completions.response_format"@);
    lemma_find_denoted_exists(inputs, "openai.chat.completions.images"@);
    lemma_find_denoted_exists(inputs, "openai.chat.completions.reasoning_effort"@);
}

/// An owned copy of `s`.
pub fn owned(s: &str) -> (r: String)
    ensures
        r@ == s@,
{
    s.to_owned()
}

/// Whether the reasoning effort selector accepts `level`.
#[verifier::loop_isolation(false)]
fn chat_effort_accepts(inputs: &[Parameter], level: &str) -> (r: Option<bool>)
    ensures
        r == effort_accepts(inputs@, level@),
{
    let parameter = match find_denoted(inputs, "openai.chat.completions.reasoning_effort") {
        Some(p) => p,
        None => return None,
    };
    match &parameter.enumeration {
        Some(members) => {
            let mut i: usize = 0;
            while i < members.len()
                invariant
                    i <= members.len(),
                    forall|j: int| 0 <= j < i ==> !member_is_level(#[trigger] members@[j], level@),
                decreases members.len() - i,
            {
                match &members[i].value {
                    EnumerationValue::String(value) => {
                        if crate::text::str_eq(value.as_str(), level) {
                            assert(member_is_level(members@[i as int], level@));
                            return Some(true);
                        }
                    },
                    _ => {},
                }
                i = i + 1;
            }
            Some(false)
        },
        None => Some(true),
    }
}

/// The model's total context window in tokens, from the chat messages input.
fn chat_context_length(inputs: &[Parameter]) -> (r: Option<u32>)
    ensures
        r == context_length_of(inputs@),
{
    match find_denoted(inputs, "openai.chat.completions.messages") {
        Some(p) => p.context_length,
        None => None,
    }
}

/// The ceiling on output tokens, from the `max_output_tokens` input's range.
fn chat_max_output_tokens(inputs: &[Parameter]) -> (r: Option<u32>)
    ensures
        r == max_output_tokens_of(inputs@),
{
    match find_denoted(inputs, "openai.chat.completions.max_output_tokens") {
        Some(p) => p.max,
        None => None,
    }
}

fn level_of(inputs: &[Parameter], level: &str) -> (r: CapabilitySupport)
    ensures
        r == level_support(inputs@, level@),
{
    match chat_effort_accepts(inputs, level) {
        Some(b) => CapabilitySupport::from_bool(b),
        None => CapabilitySupport::from_bool(false),
    }
}

impl ModelInfo {
    /// Build the `ModelInfo` object for a predictor from its signature.
    ///
    /// `created` is the Unix time the model became available; Anthropic
    /// allows an epoch value when unknown, so `None` renders as
    /// `1970-01-01T00:00:00Z`.
    pub fn from_signature(tag: &str, signature: &Signature, created: Option<u64>) -> (r: Self)
        ensures
            r.id@ == tag@,
            r.kind@ == "model"@,
            r.display_name@ == tag_parts(tag@).1,
            r.created_at@ == unix_text(
                match created {
                    Some(c) => c as nat,
                    None => 0,
                },
            ),
            r.max_input_tokens == context_length_of(signature.inputs@),
            r.max_tokens == max_output_tokens_of(signature.inputs@),
            r.capabilities == capabilities_of(signature.inputs@),
    {
        let (_, name) = split_tag(tag);
        let inputs = signature.inputs.as_slice();
        let thinking = chat_effort_accepts(inputs, "low").is_some();
        let no = CapabilitySupport::from_bool(false);
        let capabilities = ModelCapabilities {
            batch: no,
            citations: no,
            code_execution: no,
            context_management: no,
            effort: EffortCapability {
                supported: thinking,
                low: level_of(inputs, "low"),
                medium: level_of(inputs, "medium"),
                high: level_of(inputs, "high"),
                xhigh: level_of(inputs, "xhigh"),
                max: level_of(inputs, "max"),
            },
            image_input: CapabilitySupport::from_bool(
                find_denoted(inputs, "openai.chat.completions.images").is_some(),
            ),
            pdf_input: no,
            structured_outputs: CapabilitySupport::from_bool(
                find_denoted(inputs, "openai.chat.completions.response_format").is_some(),
            ),
            thinking: ThinkingCapability {
                supported: thinking,
                types: ThinkingTypes { adaptive: no, enabled: CapabilitySupport::from_bool(thinking) },
            },
        };
        let created_at = unix_to_rfc3339(
            match created {
                Some(c) => c,
                None => 0,
            },
        );
        Self {
            id: owned(tag),
            kind: owned("model"),
            display_name: owned(name),
            created_at,
            max_input_tokens: chat_context_length(inputs),
            max_tokens: chat_max_output_tokens(inputs),
            capabilities,
        }
    }
}

impl Model {
    /// Build the `Model` object for a predictor.
    ///
    /// The signature is taken for parity with the Anthropic projection
    /// (which reads limits from it); OpenAI's object carries none.
    /// `created` is the Unix time the model became available.
    pub fn from_signature(tag: &str, signature: &Signature, created: Option<u64>) -> (r: Self)
        ensures
            r.id@ == tag@,
            r.object@ == "model"@,
            r.created == match created {
                Some(c) => c,
                None => 0,
            },
            r.owned_by@ == tag_parts(tag@).0,
    {
        let (owner, _) = split_tag(tag);
        Self {
            id: owned(tag),
            object: owned("model"),
            created: match created {
                Some(c) => c,
                None => 0,
            },
            owned_by: owned(owner),
        }
    }
}

/// The two dialects read the same predictor independently and agree where
/// they overlap: both carry the tag as their id, the Anthropic release
/// time reads back as the OpenAI creation seconds, and for a tag
/// `@owner/name` the OpenAI owner and the Anthropic display name are its
/// two halves.
pub proof fn lemma_model_projections_agree(
    tag: Seq<char>,
    owner: Seq<char>,
    name: Seq<char>,
    created: u64,
)
    requires
        tag == seq!['@'] + owner + seq!['/'] + name,
        forall|j: int| 0 <= j < owner.len() ==> owner[j] != '/',
        owner.len() > 0 ==> owner[0] != '@',
    ensures
        rfc3339_seconds(unix_text(created as nat)) == Some(created as int),
        tag_parts(tag).0 == owner,
        tag_parts(tag).1 == name,
{
    lemma_rfc3339_round_trip(created);
    let at_owner = seq!['@'] + owner;
    assert(tag == at_owner + seq!['/'] + name);
    assert forall|j: int| 0 <= j < at_owner.len() implies at_owner[j] != '/' by {
        if j > 0 {
            assert(at_owner[j] == owner[j - 1]);
        }
    }
    lemma_split_once_concat(at_owner, '/', name);
    assert(skip_from(at_owner, '@', 1) == 1) by {
        if owner.len() > 0 {
            assert(at_owner[1] == owner[0]);
        }
    }
    assert(trim_start(at_owner, '@') =~= owner);
}

} // verus!
