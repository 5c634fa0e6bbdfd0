use muna::dates::{rfc3339_to_unix, unix_to_rfc3339};
use muna::dtype::Dtype;
use muna::models::{Model, ModelInfo};
use muna::params::split_tag;
use muna::types::{EnumerationMember, EnumerationValue, Parameter, Signature};

fn param(name: &str, dtype: Dtype) -> Parameter {
    Parameter {
        name: name.to_string(),
        dtype: Some(dtype),
        description: None,
        denotation: None,
        optional: None,
        enumeration: None,
        schema_title: None,
        max: None,
        context_length: None,
        sample_rate: None,
    }
}

fn denoted(name: &str, dtype: Dtype, denotation: &str) -> Parameter {
    Parameter { denotation: Some(denotation.to_string()), optional: Some(true), ..param(name, dtype) }
}

fn member(value: &str) -> EnumerationMember {
    EnumerationMember { name: value.to_string(), value: EnumerationValue::String(value.to_string()) }
}

fn chat_signature() -> Signature {
    let messages = Parameter {
        denotation: Some("openai.chat.completions.messages".to_string()),
        context_length: Some(262_144),
        ..param("messages", Dtype::List)
    };
    let tools = denoted("tools", Dtype::List, "openai.chat.completions.tools");
    let effort = Parameter {
        enumeration: Some(vec![member("none"), member("low"), member("medium"), member("high"), member("xhigh")]),
        ..denoted("reasoning_effort", Dtype::String, "openai.chat.completions.reasoning_effort")
    };
    let max_output = Parameter {
        max: Some(65_536),
        ..denoted("max_output_tokens", Dtype::Int32, "openai.chat.completions.max_output_tokens")
    };
    let temperature = denoted("temperature", Dtype::Float32, "openai.chat.completions.temperature");
    Signature { inputs: vec![messages, tools, effort, max_output, temperature], outputs: vec![] }
}

#[test]
fn rfc3339_round_trips() {
    for (unix, text) in [
        (0u64, "1970-01-01T00:00:00Z"),
        (951_782_400, "2000-02-29T00:00:00Z"),
        (1_709_164_799, "2024-02-28T23:59:59Z"),
        (1_789_936_000, "2026-09-20T20:26:40Z"),
    ] {
        assert_eq!(unix_to_rfc3339(unix), text);
        assert_eq!(rfc3339_to_unix(text), Some(unix));
    }
    assert_eq!(rfc3339_to_unix("2026-09-20T20:26:40.000Z"), Some(1_789_936_000));
    assert_eq!(rfc3339_to_unix("1789936000"), None);
    assert_eq!(rfc3339_to_unix("2026-09-20T20:26:40+02:00"), None);
}

#[test]
fn rfc3339_rejects_out_of_range_fields() {
    assert_eq!(rfc3339_to_unix("2026-13-01T00:00:00Z"), None);
    assert_eq!(rfc3339_to_unix("2026-01-32T00:00:00Z"), None);
    assert_eq!(rfc3339_to_unix("2026-01-01T24:00:00Z"), None);
    assert_eq!(rfc3339_to_unix("1969-12-31T23:59:59Z"), None);
    assert_eq!(rfc3339_to_unix("2026-01-01"), None);
}

#[test]
fn chat_model_reports_limits_and_capabilities() {
    let info = ModelInfo::from_signature("@qwen/qwen-3.8-27b", &chat_signature(), Some(1_789_936_000));
    assert_eq!(info.kind, "model");
    assert_eq!(info.display_name, "qwen-3.8-27b");
    assert_eq!(info.created_at, "2026-09-20T20:26:40Z");
    assert_eq!(info.max_input_tokens, Some(262_144));
    assert_eq!(info.max_tokens, Some(65_536));
    let caps = info.capabilities;
    assert!(caps.thinking.supported);
    assert!(caps.thinking.types.enabled.supported);
    assert!(!caps.thinking.types.adaptive.supported);
    assert!(caps.effort.supported);
    assert!(caps.effort.low.supported && caps.effort.xhigh.supported);
    assert!(!caps.effort.max.supported);
    assert!(!caps.image_input.supported);
    assert!(!caps.structured_outputs.supported);
    assert!(caps.effort.high.supported);
}

#[test]
fn signature_without_chat_denotations_is_a_bare_model() {
    let signature = Signature { inputs: vec![param("image", Dtype::Image)], outputs: vec![param("label", Dtype::String)] };
    let info = ModelInfo::from_signature("@acme/classifier", &signature, None);
    assert_eq!(info.created_at, "1970-01-01T00:00:00Z");
    assert!(!info.capabilities.thinking.supported);
    assert!(!info.capabilities.effort.supported);
    assert_eq!(info.max_input_tokens, None);
    assert_eq!(info.max_tokens, None);
}

#[test]
fn free_text_effort_advertises_every_level() {
    let signature = Signature {
        inputs: vec![
            param("messages", Dtype::List),
            Parameter { optional: None, ..denoted("effort", Dtype::String, "openai.chat.completions.reasoning_effort") },
            Parameter { optional: None, ..denoted("images", Dtype::List, "openai.chat.completions.images") },
        ],
        outputs: vec![],
    };
    let info = ModelInfo::from_signature("@a/b", &signature, None);
    assert!(info.capabilities.effort.max.supported);
    assert!(info.capabilities.image_input.supported);
}

#[test]
fn projections_agree_with_the_openai_model() {
    let signature = chat_signature();
    let created = Some(1_789_936_000);
    let info = ModelInfo::from_signature("@qwen/qwen-3.8-27b", &signature, created);
    let model = Model::from_signature("@qwen/qwen-3.8-27b", &signature, created);
    assert_eq!(info.id, model.id);
    assert_eq!(rfc3339_to_unix(&info.created_at), Some(model.created));
    assert_eq!(format!("@{}/{}", model.owned_by, info.display_name), model.id);
}

#[test]
fn model_is_exactly_the_openai_object() {
    let signature = Signature {
        inputs: vec![Parameter { context_length: Some(262_144), ..param("messages", Dtype::List) }],
        outputs: vec![],
    };
    let model = Model::from_signature("@qwen/qwen-3.8-27b", &signature, Some(1_789_936_000));
    assert_eq!(model.id, "@qwen/qwen-3.8-27b");
    assert_eq!(model.object, "model");
    assert_eq!(model.created, 1_789_936_000);
    assert_eq!(model.owned_by, "qwen");
    let unknown = Model::from_signature("@a/b", &signature, None);
    assert_eq!(unknown.created, 0);
}

#[test]
fn tags_split_into_owner_and_name() {
    assert_eq!(split_tag("@qwen/qwen-3.8-27b"), ("qwen", "qwen-3.8-27b"));
    assert_eq!(split_tag("bare"), ("", "bare"));
}
