//! How chat, embedding and image predictors are used: which of a
//! predictor's parameters receive which request field, read from the
//! signature's data types and denotations.

use vstd::prelude::*;
use crate::dtype::Dtype;
use crate::error::MunaError;
use crate::params::{
    first_index_where, first_matching, get_parameter, lemma_first_index_where,
};
use crate::text::{
    decimal_digits, opt_str_is, opt_string_eq, push_padded_decimal, push_str_chars, string_from_chars,
};
use crate::types::{Parameter, Signature};

verus! {

/// Whether a parameter is required (not marked optional).
pub open spec fn is_required(p: Parameter) -> bool {
    p.optional != Some(true)
}

/// Number of required parameters in `ps`.
pub open spec fn required_count(ps: Seq<Parameter>) -> nat
    decreases ps.len(),
{
    if ps.len() == 0 {
        0
    } else {
        required_count(ps.drop_last()) + if is_required(ps.last()) { 1nat } else { 0 }
    }
}

/// Index of the first required parameter, or the number of parameters.
pub open spec fn first_required(ps: Seq<Parameter>) -> int {
    first_index_where(ps, |p: Parameter| is_required(p), 0)
}

/// The name of the first parameter matching `dtypes` and denotation `d`.
pub open spec fn matching_name(ps: Seq<Parameter>, dtypes: Seq<Dtype>, d: Seq<char>) -> Option<String> {
    let i = first_matching(ps, dtypes, Some(d));
    if i < ps.len() {
        Some(ps[i].name)
    } else {
        None
    }
}

/// The floating-point element types.
pub open spec fn float_dtypes() -> Seq<Dtype> {
    seq![Dtype::Float32, Dtype::Float64]
}

/// The integer element types.
pub open spec fn int_dtypes() -> Seq<Dtype> {
    seq![
        Dtype::Int8,
        Dtype::Int16,
        Dtype::Int32,
        Dtype::Int64,
        Dtype::Uint8,
        Dtype::Uint16,
        Dtype::Uint32,
        Dtype::Uint64,
    ]
}

/// A dict output whose schema is titled `title`.
pub open spec fn titled_dict(p: Parameter, title: Seq<char>) -> bool {
    p.dtype == Some(Dtype::Dict) && opt_str_is(p.schema_title, title)
}

/// Index of the first output that is a dict titled `title`.
pub open spec fn first_titled_dict(ps: Seq<Parameter>, title: Seq<char>) -> int {
    first_index_where(ps, |p: Parameter| titled_dict(p, title), 0)
}

/// Index of the first parameter whose schema is titled `title`.
pub open spec fn first_titled(ps: Seq<Parameter>, title: Seq<char>) -> int {
    first_index_where(ps, |p: Parameter| opt_str_is(p.schema_title, title), 0)
}

/// The tag followed by `suffix`.
pub fn tag_message(tag: &str, suffix: &str) -> (r: String)
    ensures
        r@ == tag@ + suffix@,
{
    let mut out: Vec<char> = Vec::new();
    push_str_chars(&mut out, tag);
    push_str_chars(&mut out, suffix);
    string_from_chars(out.as_slice())
}

/// The number of required parameters and the index of the first one.
pub fn required_inputs(ps: &[Parameter]) -> (r: (usize, usize))
    ensures
        r.0 == required_count(ps@),
        r.0 >= 1 ==> r.1 == first_required(ps@) && r.1 < ps@.len(),
{
    let ghost pred = |p: Parameter| is_required(p);
    let mut count: usize = 0;
    let mut first: usize = 0;
    let mut i: usize = 0;
    assert(ps@.take(0) =~= Seq::<Parameter>::empty());
    while i < ps.len()
        invariant
            i <= ps.len(),
            count <= i,
            count == required_count(ps@.take(i as int)),
            pred == (|p: Parameter| is_required(p)),
            count == 0 ==> first_index_where(ps@, pred, 0) == first_index_where(ps@, pred, i as int),
            count >= 1 ==> first == first_index_where(ps@, pred, 0) && first < ps@.len(),
        decreases ps.len() - i,
    {
        assert(ps@.take(i + 1).drop_last() =~= ps@.take(i as int));
        if ps[i].optional != Some(true) {
            if count == 0 {
                first = i;
            }
            count = count + 1;
        }
        i = i + 1;
    }
    assert(ps@.take(ps.len() as int) =~= ps@);
    (count, first)
}

/// The name of the first parameter matching `dtypes` and `denotation`.
pub fn matching_parameter_name(ps: &[Parameter], dtypes: &[Dtype], denotation: &str) -> (r: Option<String>)
    ensures
        r == matching_name(ps@, dtypes@, denotation@),
{
    match get_parameter(ps, dtypes, Some(denotation)).1 {
        Some(p) => Some(p.name.clone()),
        None => None,
    }
}

/// The index of the first dict output titled `title`.
pub fn titled_dict_index(ps: &[Parameter], title: &str) -> (r: Option<usize>)
    ensures
        0 <= first_titled_dict(ps@, title@) <= ps@.len(),
        ({
            let i = first_titled_dict(ps@, title@);
            if i < ps@.len() {
                r matches Some(j) && j as int == i
            } else {
                r is None
            }
        }),
{
    let ghost pred = |p: Parameter| titled_dict(p, title@);
    proof {
        lemma_first_index_where(ps@, pred, 0);
    }
    let mut i: usize = 0;
    while i < ps.len()
        invariant
            i <= ps.len(),
            pred == (|p: Parameter| titled_dict(p, title@)),
            first_index_where(ps@, pred, 0) == first_index_where(ps@, pred, i as int),
        decreases ps.len() - i,
    {
        let is_dict = match ps[i].dtype {
            Some(Dtype::Dict) => true,
            _ => false,
        };
        if is_dict && opt_string_eq(&ps[i].schema_title, title) {
            return Some(i);
        }
        i = i + 1;
    }
    None
}

/// The index of the first parameter whose schema is titled `title`.
pub fn titled_index(ps: &[Parameter], title: &str) -> (r: Option<usize>)
    ensures
        0 <= first_titled(ps@, title@) <= ps@.len(),
        ({
            let i = first_titled(ps@, title@);
            if i < ps@.len() {
                r matches Some(j) && j as int == i
            } else {
                r is None
            }
        }),
{
    let ghost pred = |p: Parameter| opt_str_is(p.schema_title, title@);
    proof {
        lemma_first_index_where(ps@, pred, 0);
    }
    let mut i: usize = 0;
    while i < ps.len()
        invariant
            i <= ps.len(),
            pred == (|p: Parameter| opt_str_is(p.schema_title, title@)),
            first_index_where(ps@, pred, 0) == first_index_where(ps@, pred, i as int),
        decreases ps.len() - i,
    {
        if opt_string_eq(&ps[i].schema_title, title) {
            return Some(i);
        }
        i = i + 1;
    }
    None
}

/// Predictor metadata for fast chat completion creation: the parameter
/// that receives each request field.
#[derive(Debug, Clone, PartialEq, Eq)]
pub struct ChatDelegateInfo {
    pub input_param_name: String,
    pub response_format_param_name: Option<String>,
    pub reasoning_effort_param_name: Option<String>,
    pub max_output_tokens_param_name: Option<String>,
    pub temperature_param_name: Option<String>,
    pub top_p_param_name: Option<String>,
    pub frequency_penalty_param_name: Option<String>,
    pub presence_penalty_param_name: Option<String>,
    pub images_param_name: Option<String>,
    pub audios_param_name: Option<String>,
    /// Declared PCM sample rate of the audios parameter; all decoded
    /// audio content parts are resampled to it.
    pub audio_sample_rate: Option<u32>,
    pub tools_param_name: Option<String>,
    pub completion_param_idx: usize,
}

/// The audios parameter of a chat predictor.
pub open spec fn audios_index(inputs: Seq<Parameter>) -> int {
    first_matching(inputs, seq![Dtype::ArrayList], Some("openai.chat.completions.audios"@))
}

/// The input and output shape that the chat completions surface needs,
/// and the parameter names it reads from a chat predictor's signature.
/// Errors: a predictor without exactly one required input, whose required
/// input is not a list, or without a `ChatCompletionChunk` dict output.
pub fn chat_delegate_info(tag: &str, signature: &Signature) -> (r: Result<ChatDelegateInfo, MunaError>)
    ensures
        ({
            let inputs = signature.inputs@;
            let outputs = signature.outputs@;
            if required_count(inputs) != 1 {
                r matches Err(MunaError::Prediction(m)) && m@ == tag@
                    + " cannot be used with OpenAI chat completions API because it has more than one required input parameter."@
            } else if inputs[first_required(inputs)].dtype != Some(Dtype::List) {
                r matches Err(MunaError::Prediction(m)) && m@ == tag@
                    + " cannot be used with OpenAI chat completions API because it does not have a valid chat messages input parameter."@
            } else if first_titled_dict(outputs, "ChatCompletionChunk"@) >= outputs.len() {
                r matches Err(MunaError::Prediction(m)) && m@ == tag@
                    + " cannot be used with OpenAI chat completions API because it does not have a valid chat completion chunk output parameter. Chat predictors must yield `ChatCompletionChunk` outputs."@
            } else {
                r matches Ok(info) && {
                    &&& info.input_param_name == inputs[first_required(inputs)].name
                    &&& info.response_format_param_name == matching_name(inputs, seq![Dtype::Dict], "openai.chat.completions.response_format"@)
                    &&& info.reasoning_effort_param_name == matching_name(inputs, seq![Dtype::String], "openai.chat.completions.reasoning_effort"@)
                    &&& info.max_output_tokens_param_name == matching_name(inputs, int_dtypes(), "openai.chat.completions.max_output_tokens"@)
                    &&& info.temperature_param_name == matching_name(inputs, float_dtypes(), "openai.chat.completions.temperature"@)
                    &&& info.top_p_param_name == matching_name(inputs, float_dtypes(), "openai.chat.completions.top_p"@)
                    &&& info.frequency_penalty_param_name == matching_name(inputs, float_dtypes(), "openai.chat.completions.frequency_penalty"@)
                    &&& info.presence_penalty_param_name == matching_name(inputs, float_dtypes(), "openai.chat.completions.presence_penalty"@)
                    &&& info.images_param_name == matching_name(inputs, seq![Dtype::ImageList], "openai.chat.completions.images"@)
                    &&& info.audios_param_name == matching_name(inputs, seq![Dtype::ArrayList], "openai.chat.completions.audios"@)
                    &&& info.audio_sample_rate == if audios_index(inputs) < inputs.len() {
                        inputs[audios_index(inputs)].sample_rate
                    } else {
                        None
                    }
                    &&& info.tools_param_name == matching_name(inputs, seq![Dtype::List], "openai.chat.completions.tools"@)
                    &&& info.completion_param_idx == first_titled_dict(outputs, "ChatCompletionChunk"@)
                }
            }
        }),
{
    let inputs = signature.inputs.as_slice();
    let (count, first) = required_inputs(inputs);
    if count != 1 {
        return Err(MunaError::Prediction(tag_message(
            tag,
            " cannot be used with OpenAI chat completions API because it has more than one required input parameter.",
        )));
    }
    let input_param = &inputs[first];
    if input_param.dtype != Some(Dtype::List) {
        return Err(MunaError::Prediction(tag_message(
            tag,
            " cannot be used with OpenAI chat completions API because it does not have a valid chat messages input parameter.",
        )));
    }
    let floats = [Dtype::Float32, Dtype::Float64];
    let ints = [
        Dtype::Int8,
        Dtype::Int16,
        Dtype::Int32,
        Dtype::Int64,
        Dtype::Uint8,
        Dtype::Uint16,
        Dtype::Uint32,
        Dtype::Uint64,
    ];
    assert(floats@ == float_dtypes());
    assert(ints@ == int_dtypes());
    let dict = [Dtype::Dict];
    let string = [Dtype::String];
    let image_list = [Dtype::ImageList];
    let array_list = [Dtype::ArrayList];
    let list = [Dtype::List];
    assert(dict@ == seq![Dtype::Dict]);
    assert(string@ == seq![Dtype::String]);
    assert(image_list@ == seq![Dtype::ImageList]);
    assert(array_list@ == seq![Dtype::ArrayList]);
    assert(list@ == seq![Dtype::List]);
    let audios_param = get_parameter(inputs, &array_list, Some("openai.chat.completions.audios")).1;
    let audio_sample_rate = match audios_param {
        Some(p) => p.sample_rate,
        None => None,
    };
    let outputs = signature.outputs.as_slice();
    assert(outputs@ == signature.outputs@);
    let completion_param_idx = match titled_dict_index(outputs, "ChatCompletionChunk") {
        Some(i) => i,
        None => {
            return Err(MunaError::Prediction(tag_message(
                tag,
                " cannot be used with OpenAI chat completions API because it does not have a valid chat completion chunk output parameter. Chat predictors must yield `ChatCompletionChunk` outputs.",
            )));
        },
    };
    Ok(ChatDelegateInfo {
        input_param_name: input_param.name.clone(),
        response_format_param_name: matching_parameter_name(inputs, &dict, "openai.chat.completions.response_format"),
        reasoning_effort_param_name: matching_parameter_name(inputs, &string, "openai.chat.completions.reasoning_effort"),
        max_output_tokens_param_name: matching_parameter_name(inputs, &ints, "openai.chat.completions.max_output_tokens"),
        temperature_param_name: matching_parameter_name(inputs, &floats, "openai.chat.completions.temperature"),
        top_p_param_name: matching_parameter_name(inputs, &floats, "openai.chat.completions.top_p"),
        frequency_penalty_param_name: matching_parameter_name(inputs, &floats, "openai.chat.completions.frequency_penalty"),
        presence_penalty_param_name: matching_parameter_name(inputs, &floats, "openai.chat.completions.presence_penalty"),
        images_param_name: matching_parameter_name(inputs, &image_list, "openai.chat.completions.images"),
        audios_param_name: matching_parameter_name(inputs, &array_list, "openai.chat.completions.audios"),
        audio_sample_rate,
        tools_param_name: matching_parameter_name(inputs, &list, "openai.chat.completions.tools"),
        completion_param_idx,
    })
}


/// Predictor metadata for fast message creation through the Anthropic
/// messages surface, which adapts to the OpenAI chat completions contract.
#[derive(Debug, Clone, PartialEq, Eq)]
pub struct MessageDelegateInfo {
    pub input_param_name: String,
    pub max_tokens_param_name: Option<String>,
    pub stop_sequences_param_name: Option<String>,
    pub temperature_param_name: Option<String>,
    pub top_k_param_name: Option<String>,
    pub top_p_param_name: Option<String>,
    pub tools_param_name: Option<String>,
    pub output_param_idx: usize,
}

/// The parameter names that the Anthropic messages surface reads from a
/// chat predictor's signature. Errors as for the chat completions surface.
pub fn message_delegate_info(tag: &str, signature: &Signature) -> (r: Result<MessageDelegateInfo, MunaError>)
    ensures
        ({
            let inputs = signature.inputs@;
            let outputs = signature.outputs@;
            if required_count(inputs) != 1 {
                r matches Err(MunaError::Prediction(m)) && m@ == tag@
                    + " cannot be used with Anthropic messages API because it has more than one required input parameter."@
            } else if inputs[first_required(inputs)].dtype != Some(Dtype::List) {
                r matches Err(MunaError::Prediction(m)) && m@ == tag@
                    + " cannot be used with Anthropic messages API because it does not have a valid chat messages input parameter."@
            } else if first_titled_dict(outputs, "ChatCompletionChunk"@) >= outputs.len() {
                r matches Err(MunaError::Prediction(m)) && m@ == tag@
                    + " cannot be used with Anthropic messages API because it does not have a valid chat completion chunk output parameter. Chat predictors must yield `ChatCompletionChunk` outputs."@
            } else {
                r matches Ok(info) && {
                    &&& info.input_param_name == inputs[first_required(inputs)].name
                    &&& info.max_tokens_param_name == matching_name(inputs, int_dtypes(), "openai.chat.completions.max_output_tokens"@)
                    &&& info.temperature_param_name == matching_name(inputs, float_dtypes(), "openai.chat.completions.temperature"@)
                    &&& info.top_p_param_name == matching_name(inputs, float_dtypes(), "openai.chat.completions.top_p"@)
                    &&& info.stop_sequences_param_name == matching_name(inputs, seq![Dtype::List], "anthropic.messages.stop_sequences"@)
                    &&& info.top_k_param_name == matching_name(inputs, int_dtypes(), "anthropic.messages.top_k"@)
                    &&& info.tools_param_name == matching_name(inputs, seq![Dtype::List], "openai.chat.completions.tools"@)
                    &&& info.output_param_idx == first_titled_dict(outputs, "ChatCompletionChunk"@)
                }
            }
        }),
{
    let inputs = signature.inputs.as_slice();
    let (count, first) = required_inputs(inputs);
    if count != 1 {
        return Err(MunaError::Prediction(tag_message(
            tag,
            " cannot be used with Anthropic messages API because it has more than one required input parameter.",
        )));
    }
    let input_param = &inputs[first];
    if input_param.dtype != Some(Dtype::List) {
        return Err(MunaError::Prediction(tag_message(
            tag,
            " cannot be used with Anthropic messages API because it does not have a valid chat messages input parameter.",
        )));
    }
    let floats = [Dtype::Float32, Dtype::Float64];
    let ints = [
        Dtype::Int8,
        Dtype::Int16,
        Dtype::Int32,
        Dtype::Int64,
        Dtype::Uint8,
        Dtype::Uint16,
        Dtype::Uint32,
        Dtype::Uint64,
    ];
    assert(floats@ == float_dtypes());
    assert(ints@ == int_dtypes());
    let list = [Dtype::List];
    assert(list@ == seq![Dtype::List]);
    let outputs = signature.outputs.as_slice();
    let output_param_idx = match titled_dict_index(outputs, "ChatCompletionChunk") {
        Some(i) => i,
        None => {
            return Err(MunaError::Prediction(tag_message(
                tag,
                " cannot be used with Anthropic messages API because it does not have a valid chat completion chunk output parameter. Chat predictors must yield `ChatCompletionChunk` outputs.",
            )));
        },
    };
    Ok(MessageDelegateInfo {
        input_param_name: input_param.name.clone(),
        max_tokens_param_name: matching_parameter_name(inputs, &ints, "openai.chat.completions.max_output_tokens"),
        stop_sequences_param_name: matching_parameter_name(inputs, &list, "anthropic.messages.stop_sequences"),
        temperature_param_name: matching_parameter_name(inputs, &floats, "openai.chat.completions.temperature"),
        top_k_param_name: matching_parameter_name(inputs, &ints, "anthropic.messages.top_k"),
        top_p_param_name: matching_parameter_name(inputs, &floats, "openai.chat.completions.top_p"),
        tools_param_name: matching_parameter_name(inputs, &list, "openai.chat.completions.tools"),
        output_param_idx,
    })
}

/// Predictor metadata for fast embedding creation.
#[derive(Debug, Clone, PartialEq, Eq)]
pub struct EmbeddingDelegateInfo {
    pub input_param_name: String,
    pub matryoshka_param_name: Option<String>,
    pub embedding_param_idx: usize,
    pub usage_param_idx: Option<usize>,
}

/// The parameters that the OpenAI embeddings surface reads from an
/// embedding predictor's signature. Errors: a predictor without exactly
/// one required input, whose required input is not a list, or without a
/// `float32` output denoted `embedding`.
pub fn embedding_delegate_info(tag: &str, signature: &Signature) -> (r: Result<EmbeddingDelegateInfo, MunaError>)
    ensures
        ({
            let inputs = signature.inputs@;
            let outputs = signature.outputs@;
            let embedding = first_matching(outputs, seq![Dtype::Float32], Some("embedding"@));
            if required_count(inputs) != 1 {
                r matches Err(MunaError::Prediction(m)) && m@ == tag@
                    + " cannot be used with OpenAI embedding API because it has more than one required input parameter."@
            } else if inputs[first_required(inputs)].dtype != Some(Dtype::List) {
                r matches Err(MunaError::Prediction(m)) && m@ == tag@
                    + " cannot be used with OpenAI embedding API because it does not have a valid text embedding input parameter."@
            } else if embedding >= outputs.len() {
                r matches Err(MunaError::Prediction(m)) && m@ == tag@
                    + " cannot be used with OpenAI embedding API because it has no outputs with an `embedding` denotation."@
            } else {
                r matches Ok(info) && {
                    &&& info.input_param_name == inputs[first_required(inputs)].name
                    &&& info.matryoshka_param_name == matching_name(inputs, int_dtypes(), "openai.embeddings.dims"@)
                    &&& info.embedding_param_idx == embedding
                    &&& info.usage_param_idx == if first_titled(outputs, "Usage"@) < outputs.len() {
                        Some(first_titled(outputs, "Usage"@) as usize)
                    } else {
                        None
                    }
                }
            }
        }),
{
    let inputs = signature.inputs.as_slice();
    let (count, first) = required_inputs(inputs);
    if count != 1 {
        return Err(MunaError::Prediction(tag_message(
            tag,
            " cannot be used with OpenAI embedding API because it has more than one required input parameter.",
        )));
    }
    let input_param = &inputs[first];
    if input_param.dtype != Some(Dtype::List) {
        return Err(MunaError::Prediction(tag_message(
            tag,
            " cannot be used with OpenAI embedding API because it does not have a valid text embedding input parameter.",
        )));
    }
    let ints = [
        Dtype::Int8,
        Dtype::Int16,
        Dtype::Int32,
        Dtype::Int64,
        Dtype::Uint8,
        Dtype::Uint16,
        Dtype::Uint32,
        Dtype::Uint64,
    ];
    assert(ints@ == int_dtypes());
    let float32 = [Dtype::Float32];
    assert(float32@ == seq![Dtype::Float32]);
    let outputs = signature.outputs.as_slice();
    let embedding_param_idx = match get_parameter(outputs, &float32, Some("embedding")).0 {
        Some(i) => i,
        None => {
            return Err(MunaError::Prediction(tag_message(
                tag,
                " cannot be used with OpenAI embedding API because it has no outputs with an `embedding` denotation.",
            )));
        },
    };
    let usage_param_idx = titled_index(outputs, "Usage");
    Ok(EmbeddingDelegateInfo {
        input_param_name: input_param.name.clone(),
        matryoshka_param_name: matching_parameter_name(inputs, &ints, "openai.embeddings.dims"),
        embedding_param_idx,
        usage_param_idx,
    })
}

/// How the image surface calls an image predictor.
#[derive(Debug, Clone, PartialEq, Eq)]
pub struct ImageConfig {
    pub prompt_param_name: String,
    pub width_param: Option<String>,
    pub height_param: Option<String>,
    pub count_param: Option<String>,
    pub image_param_idx: usize,
}

/// The first output of type `image_list`.
pub open spec fn first_image_list(ps: Seq<Parameter>) -> int {
    first_index_where(ps, |p: Parameter| p.dtype == Some(Dtype::ImageList), 0)
}

/// The index of the first `image_list` parameter.
pub fn image_list_index(ps: &[Parameter]) -> (r: Option<usize>)
    ensures
        0 <= first_image_list(ps@) <= ps@.len(),
        ({
            let i = first_image_list(ps@);
            if i < ps@.len() {
                r matches Some(j) && j as int == i
            } else {
                r is None
            }
        }),
{
    let ghost pred = |p: Parameter| p.dtype == Some(Dtype::ImageList);
    proof {
        lemma_first_index_where(ps@, pred, 0);
    }
    let mut i: usize = 0;
    while i < ps.len()
        invariant
            i <= ps.len(),
            pred == (|p: Parameter| p.dtype == Some(Dtype::ImageList)),
            first_index_where(ps@, pred, 0) == first_index_where(ps@, pred, i as int),
        decreases ps.len() - i,
    {
        let found = match ps[i].dtype {
            Some(Dtype::ImageList) => true,
            _ => false,
        };
        if found {
            return Some(i);
        }
        i = i + 1;
    }
    None
}

/// The parameters that the OpenAI image surface reads from an image
/// predictor's signature. Errors: a predictor without exactly one
/// required input, whose required input is not a list (the prompt), or
/// without an `image_list` output.
pub fn image_config(tag: &str, signature: &Signature) -> (r: Result<ImageConfig, MunaError>)
    ensures
        ({
            let inputs = signature.inputs@;
            let outputs = signature.outputs@;
            if required_count(inputs) != 1 {
                r matches Err(MunaError::Prediction(m)) && m@ == tag@
                    + " cannot be used with image API: expected 1 required input"@
            } else if inputs[first_required(inputs)].dtype != Some(Dtype::List) {
                r matches Err(MunaError::Prediction(m)) && m@ == tag@ + ": no text prompt parameter"@
            } else if first_image_list(outputs) >= outputs.len() {
                r matches Err(MunaError::Prediction(m)) && m@ == tag@ + ": no image_list output"@
            } else {
                r matches Ok(config) && {
                    &&& config.prompt_param_name == inputs[first_required(inputs)].name
                    &&& config.width_param == matching_name(inputs, int_dtypes(), "openai.images.width"@)
                    &&& config.height_param == matching_name(inputs, int_dtypes(), "openai.images.height"@)
                    &&& config.count_param == matching_name(inputs, int_dtypes(), "openai.images.count"@)
                    &&& config.image_param_idx == first_image_list(outputs)
                }
            }
        }),
{
    let inputs = signature.inputs.as_slice();
    let (count, first) = required_inputs(inputs);
    if count != 1 {
        return Err(MunaError::Prediction(tag_message(
            tag,
            " cannot be used with image API: expected 1 required input",
        )));
    }
    let prompt_param = &inputs[first];
    if prompt_param.dtype != Some(Dtype::List) {
        return Err(MunaError::Prediction(tag_message(tag, ": no text prompt parameter")));
    }
    let ints = [
        Dtype::Int8,
        Dtype::Int16,
        Dtype::Int32,
        Dtype::Int64,
        Dtype::Uint8,
        Dtype::Uint16,
        Dtype::Uint32,
        Dtype::Uint64,
    ];
    assert(ints@ == int_dtypes());
    let outputs = signature.outputs.as_slice();
    let image_param_idx = match image_list_index(outputs) {
        Some(i) => i,
        None => return Err(MunaError::Prediction(tag_message(tag, ": no image_list output"))),
    };
    Ok(ImageConfig {
        prompt_param_name: prompt_param.name.clone(),
        width_param: matching_parameter_name(inputs, &ints, "openai.images.width"),
        height_param: matching_parameter_name(inputs, &ints, "openai.images.height"),
        count_param: matching_parameter_name(inputs, &ints, "openai.images.count"),
        image_param_idx,
    })
}

/// Which chat inputs a request carries (their values stay with the
/// caller).
#[derive(Debug, Clone, Copy, PartialEq, Eq, Default)]
pub struct ChatInputPresence {
    pub tools: bool,
    pub response_format: bool,
    pub reasoning_effort: bool,
    pub max_output_tokens: bool,
    pub temperature: bool,
    pub top_p: bool,
    pub frequency_penalty: bool,
    pub presence_penalty: bool,
    pub stop_sequences: bool,
    pub top_k: bool,
}

/// The parameter that receives each chat input; `None` for an input that
/// the request does not carry or that no parameter declares.
#[derive(Debug, Clone, PartialEq, Eq)]
pub struct ChatInputBinding {
    pub messages: String,
    pub tools: Option<String>,
    pub response_format: Option<String>,
    pub reasoning_effort: Option<String>,
    pub max_output_tokens: Option<String>,
    pub temperature: Option<String>,
    pub top_p: Option<String>,
    pub frequency_penalty: Option<String>,
    pub presence_penalty: Option<String>,
    pub stop_sequences: Option<String>,
    pub top_k: Option<String>,
}

/// The parameter that an input receives when the request carries it.
pub open spec fn bound_name(present: bool, ps: Seq<Parameter>, dtypes: Seq<Dtype>, d: Seq<char>) -> Option<String> {
    if present {
        matching_name(ps, dtypes, d)
    } else {
        None
    }
}

fn bind(present: bool, ps: &[Parameter], dtypes: &[Dtype], denotation: &str) -> (r: Option<String>)
    ensures
        r == bound_name(present, ps@, dtypes@, denotation@),
{
    if present {
        matching_parameter_name(ps, dtypes, denotation)
    } else {
        None
    }
}

/// Bind chat inputs to a predictor's parameter names.
///
/// The predictor's sole required input, which must be a `list`, receives
/// the messages. Every other input binds to the parameter carrying its
/// denotation. Tools present with no denoted tools parameter is a caller
/// error (`InvalidInput`): the request asked for something the model cannot
/// do. Any other input without a matching parameter is dropped: sampling
/// knobs are advisory and the predictor simply does not expose them.
pub fn bind_chat_parameters(present: ChatInputPresence, signature: &Signature) -> (r: Result<ChatInputBinding, MunaError>)
    ensures
        ({
            let inputs = signature.inputs@;
            if required_count(inputs) != 1 {
                r matches Err(MunaError::Prediction(m)) && m@ == "This predictor cannot be used as a chat predictor because it declares "@
                    + decimal_digits(required_count(inputs))
                    + " required input parameters; chat predictors declare exactly one (the messages input)."@
            } else if inputs[first_required(inputs)].dtype != Some(Dtype::List) {
                r matches Err(MunaError::Prediction(m)) && m@
                    == "This predictor cannot be used as a chat predictor because its required input parameter is not a `list` of chat messages."@
            } else if present.tools && matching_name(inputs, seq![Dtype::List], "openai.chat.completions.tools"@) is None {
                r matches Err(MunaError::InvalidInput(m)) && m@
                    == "This predictor does not support tool calling because it does not declare a tools input parameter."@
            } else {
                r matches Ok(b) && {
                    &&& b.messages == inputs[first_required(inputs)].name
                    &&& b.tools == bound_name(present.tools, inputs, seq![Dtype::List], "openai.chat.completions.tools"@)
                    &&& b.response_format == bound_name(present.response_format, inputs, seq![Dtype::Dict], "openai.chat.completions.response_format"@)
                    &&& b.reasoning_effort == bound_name(present.reasoning_effort, inputs, seq![Dtype::String], "openai.chat.completions.reasoning_effort"@)
                    &&& b.max_output_tokens == bound_name(present.max_output_tokens, inputs, int_dtypes(), "openai.chat.completions.max_output_tokens"@)
                    &&& b.temperature == bound_name(present.temperature, inputs, float_dtypes(), "openai.chat.completions.temperature"@)
                    &&& b.top_p == bound_name(present.top_p, inputs, float_dtypes(), "openai.chat.completions.top_p"@)
                    &&& b.frequency_penalty == bound_name(present.frequency_penalty, inputs, float_dtypes(), "openai.chat.completions.frequency_penalty"@)
                    &&& b.presence_penalty == bound_name(present.presence_penalty, inputs, float_dtypes(), "openai.chat.completions.presence_penalty"@)
                    &&& b.stop_sequences == bound_name(present.stop_sequences, inputs, seq![Dtype::List], "anthropic.messages.stop_sequences"@)
                    &&& b.top_k == bound_name(present.top_k, inputs, int_dtypes(), "anthropic.messages.top_k"@)
                }
            }
        }),
{
    let inputs = signature.inputs.as_slice();
    let (count, first) = required_inputs(inputs);
    if count != 1 {
        let mut out: Vec<char> = Vec::new();
        push_str_chars(&mut out, "This predictor cannot be used as a chat predictor because it declares ");
        push_padded_decimal(&mut out, count as u64, 0);
        push_str_chars(&mut out, " required input parameters; chat predictors declare exactly one (the messages input).");
        return Err(MunaError::Prediction(string_from_chars(out.as_slice())));
    }
    let messages_param = &inputs[first];
    if messages_param.dtype != Some(Dtype::List) {
        return Err(MunaError::Prediction(crate::models::owned(
            "This predictor cannot be used as a chat predictor because its required input parameter is not a `list` of chat messages.",
        )));
    }
    let floats = [Dtype::Float32, Dtype::Float64];
    let ints = [
        Dtype::Int8,
        Dtype::Int16,
        Dtype::Int32,
        Dtype::Int64,
        Dtype::Uint8,
        Dtype::Uint16,
        Dtype::Uint32,
        Dtype::Uint64,
    ];
    assert(floats@ == float_dtypes());
    assert(ints@ == int_dtypes());
    let list = [Dtype::List];
    let dict = [Dtype::Dict];
    let string = [Dtype::String];
    assert(list@ == seq![Dtype::List]);
    assert(dict@ == seq![Dtype::Dict]);
    assert(string@ == seq![Dtype::String]);
    let tools = bind(present.tools, inputs, &list, "openai.chat.completions.tools");
    if present.tools && tools.is_none() {
        return Err(MunaError::InvalidInput(crate::models::owned(
            "This predictor does not support tool calling because it does not declare a tools input parameter.",
        )));
    }
    Ok(ChatInputBinding {
        messages: messages_param.name.clone(),
        tools,
        response_format: bind(present.response_format, inputs, &dict, "openai.chat.completions.response_format"),
        reasoning_effort: bind(present.reasoning_effort, inputs, &string, "openai.chat.completions.reasoning_effort"),
        max_output_tokens: bind(present.max_output_tokens, inputs, &ints, "openai.chat.completions.max_output_tokens"),
        temperature: bind(present.temperature, inputs, &floats, "openai.chat.completions.temperature"),
        top_p: bind(present.top_p, inputs, &floats, "openai.chat.completions.top_p"),
        frequency_penalty: bind(present.frequency_penalty, inputs, &floats, "openai.chat.completions.frequency_penalty"),
        presence_penalty: bind(present.presence_penalty, inputs, &floats, "openai.chat.completions.presence_penalty"),
        stop_sequences: bind(present.stop_sequences, inputs, &list, "anthropic.messages.stop_sequences"),
        top_k: bind(present.top_k, inputs, &ints, "anthropic.messages.top_k"),
    })
}

} // verus!
